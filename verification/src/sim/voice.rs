//! Decoded-line simulation for digital voice modes: emits dsd-neo-flavoured
//! text so the call card, history and parsers get exercised without RF.

use vstd::prelude::*;
use crate::dsp::{xs_out, xs_step, Rng};
use crate::text::{
    chars_of, dec_chars, dec_padded, dec_str, pad_left, pad_right, pad_right_of, push_all,
    push_str, string_of, all_digits, digit_char, find_from, is_alnum, is_digit, is_ws, lemma_dec_str_digits,
    lemma_skip_word, lemma_skip_ws, matches_at, skip_word, skip_ws, tokens_from, trim_start, upper,
    upper_seq,
};
use crate::parse::dsd::{
    field_end, first_word, is_field_end, is_kv_sep, merged, scan_key, skip_kv, spec_parse_line,
    value_at, CallView,
};

verus! {

// --------------------------------------------------------------- drawing

/// One draw from the generator state: (output, next state).
pub open spec fn draw(st: u64) -> (u64, u64) {
    (xs_out(xs_step(st)), xs_step(st))
}

pub open spec fn draw_range(st: u64, lo: u32, hi: u32) -> (u32, u64) {
    ((lo + draw(st).0 % ((hi - lo) as u64)) as u32, draw(st).1)
}

pub open spec fn draw_chance(st: u64, p53: u64) -> (bool, u64) {
    ((draw(st).0 >> 11u64) < p53, draw(st).1)
}

/// 0.85 and 0.8 as fractions of 2^53 (exactly the doubles).
pub const P_GROUP: u64 = 7656119366529843;

pub const P_ALL: u64 = 7205759403792794;

pub open spec fn callsigns() -> Seq<Seq<char>> {
    seq!["YU1ABC"@, "YT2XYZ"@, "S52DK"@, "9A3W"@, "OE7DK"@, "HA5K"@]
}

pub open spec fn talkgroups() -> Seq<u32> {
    seq![9u32, 91, 214, 2311, 26212, 260210]
}

// ----------------------------------------------------------------- lines

pub open spec fn cc2(cc: u32) -> Seq<char> {
    pad_left(dec_str(cc as nat), 2, '0')
}

pub open spec fn hex_digit_up(d: nat) -> char {
    if d < 10 {
        (d + 48) as char
    } else {
        (d + 55) as char
    }
}

/// Three upper-case hex digits of `n < 0x1000`.
pub open spec fn hex3(n: nat) -> Seq<char> {
    seq![hex_digit_up(n / 256), hex_digit_up((n / 16) % 16), hex_digit_up(n % 16)]
}

pub open spec fn dmr_head(slot: u64) -> Seq<char> {
    "Slot "@ + dec_str(slot as nat)
}

pub open spec fn dmr_tail(cc: u32, kind: Seq<char>, tg: u32, rid: u32) -> Seq<char> {
    " DMR | Color Code="@ + cc2(cc) + " | "@ + kind + " | TG: "@ + dec_str(tg as nat) + " | RID: "@
        + dec_str(rid as nat)
}

pub open spec fn dmr_lines(frames: u32, slot: u64, cc: u32, kind: Seq<char>, tg: u32, rid: u32) -> Seq<(u64, Seq<char>)> {
    seq![
        (0u64, "Sync: +DMR  [slot"@ + dec_str(slot as nat) + "]  | Color Code="@ + cc2(cc) + " | VLC"@),
        (60u64, dmr_head(slot) + " TLC"@ + dmr_tail(cc, kind, tg, rid)),
    ] + Seq::new(
        frames as nat,
        |i: int| (360u64, dmr_head(slot) + " VC"@ + dec_str((1 + i % 6) as nat) + dmr_tail(cc, kind, tg, rid)),
    ) + seq![
        (200u64, dmr_head(slot) + " TLC DMR | Color Code="@ + cc2(cc) + " | Call End | TG: "@ + dec_str(tg as nat)),
    ]
}

pub open spec fn ysf_lines(frames: u32, src: Seq<char>, dst: Seq<char>) -> Seq<(u64, Seq<char>)> {
    seq![(0u64, "Sync: +YSF VD2"@)] + Seq::new(
        frames as nat,
        |i: int| (350u64, "YSF VD2 | DN | DST: "@ + pad_right(dst, 8) + " | SRC: "@ + pad_right(src, 8) + " | UL: DIRECT"@),
    ) + seq![(150u64, "YSF EOT"@)]
}

pub open spec fn dstar_lines(frames: u32, my: Seq<char>) -> Seq<(u64, Seq<char>)> {
    seq![(0u64, "Sync: +DSTAR HD"@)] + Seq::new(
        frames as nat,
        |i: int| (350u64, "DSTAR | UR: CQCQCQ   | MY: "@ + my + "/ID51 | RPT1: YU0RPT B | RPT2: YU0RPT G"@),
    ) + seq![(150u64, "DSTAR EOT"@)]
}

pub open spec fn nxdn_lines(frames: u32, ran: u32, tg: u32, src: u32) -> Seq<(u64, Seq<char>)> {
    Seq::new(
        frames as nat,
        |i: int| (350u64, "NXDN48 VCH | RAN: "@ + dec_str(ran as nat) + " | Group Call | TG: "@ + dec_str(tg as nat) + " | SRC: "@ + dec_str(src as nat)),
    )
}

pub open spec fn p25_lines(frames: u32, nac: Seq<char>, tg: u32, src: u32) -> Seq<(u64, Seq<char>)> {
    seq![(0u64, "P25 HDU | NAC: "@ + nac)] + Seq::new(
        frames as nat,
        |i: int| (360u64, "P25 LDU"@ + dec_str((1 + i % 2) as nat) + " | NAC: "@ + nac + " | Group Call | TG: "@ + dec_str(tg as nat) + " | SRC: "@ + dec_str(src as nat)),
    ) + seq![(150u64, "P25 TDU | NAC: "@ + nac)]
}

pub open spec fn m17_lines(frames: u32, src: Seq<char>) -> Seq<(u64, Seq<char>)> {
    Seq::new(
        frames as nat,
        |i: int| (350u64, "M17 STR | DST: ALL       | SRC: "@ + pad_right(src, 9) + " | CAN: 0"@),
    )
}

/// One call of protocol `proto` drawn from generator state `st`: its
/// lines (delay before each, text) and the state afterwards. The frame
/// count (6..22) is drawn first, then the protocol's own values.
pub open spec fn voice_call(proto: Seq<char>, st: u64) -> (Seq<(u64, Seq<char>)>, u64) {
    let (frames, s1) = draw_range(st, 6, 22);
    if proto == "dmr"@ {
        let (r, s2) = draw(s1);
        let slot = 1 + (r & 1u64);
        let (cc, s3) = draw_range(s2, 1, 15);
        let (t, s4) = draw(s3);
        let tg = talkgroups()[(t % 6) as int];
        let (rr, s5) = draw_range(s4, 0, 9999);
        let (grp, s6) = draw_chance(s5, P_GROUP);
        let kind = if grp { "Group Call"@ } else { "Private Call"@ };
        (dmr_lines(frames, slot as u64, cc, kind, tg, (2_620_000 + rr) as u32), s6)
    } else if proto == "ysf"@ {
        let (c, s2) = draw(s1);
        let (all, s3) = draw_chance(s2, P_ALL);
        (ysf_lines(frames, callsigns()[(c % 6) as int], if all { "ALL"@ } else { "CQCQCQ"@ }), s3)
    } else if proto == "dstar"@ {
        let (c, s2) = draw(s1);
        (dstar_lines(frames, callsigns()[(c % 6) as int]), s2)
    } else if proto == "nxdn"@ {
        let (ran, s2) = draw_range(s1, 1, 63);
        let (tg, s3) = draw_range(s2, 100, 999);
        let (src, s4) = draw_range(s3, 1000, 9999);
        (nxdn_lines(frames, ran, tg, src), s4)
    } else if proto == "p25"@ {
        let (nac, s2) = draw_range(s1, 0x100, 0xFFF);
        let (tg, s3) = draw_range(s2, 10000, 65000);
        let (src, s4) = draw_range(s3, 1_000_000, 9_999_999);
        (p25_lines(frames, hex3(nac as nat), tg, src), s4)
    } else {
        let (c, s2) = draw(s1);
        (m17_lines(frames, callsigns()[(c % 6) as int]), s2)
    }
}

// ------------------------------------------------------------------- sim

pub struct VoiceSim {
    rng: Rng,
    proto: String,
    callsigns: Vec<String>,
}

pub struct SimLine {
    pub delay_ms: u64,
    pub text: String,
}

pub open spec fn line_views(v: Seq<SimLine>) -> Seq<(u64, Seq<char>)> {
    v.map_values(|l: SimLine| (l.delay_ms, l.text@))
}

impl VoiceSim {
    /// The protocol being simulated.
    pub closed spec fn proto(&self) -> Seq<char> {
        self.proto@
    }

    /// The generator state.
    pub closed spec fn state(&self) -> u64 {
        self.rng@
    }

    pub closed spec fn wf(&self) -> bool {
        &&& self.callsigns@.len() == 6
        &&& forall|i: int| 0 <= i < 6 ==> #[trigger] self.callsigns@[i]@ == callsigns()[i]
    }

    pub fn new(proto: &str, seed: u64) -> (s: Self)
        ensures
            s.wf(),
            s.proto() == proto@,
            s.state() == (seed ^ 0x701CE) | 1,
    {
        let mut callsigns: Vec<String> = Vec::new();
        callsigns.push(String::from_str("YU1ABC"));
        callsigns.push(String::from_str("YT2XYZ"));
        callsigns.push(String::from_str("S52DK"));
        callsigns.push(String::from_str("9A3W"));
        callsigns.push(String::from_str("OE7DK"));
        callsigns.push(String::from_str("HA5K"));
        VoiceSim { rng: Rng::new(seed ^ 0x701CE), proto: String::from_str(proto), callsigns }
    }
}


fn line(delay_ms: u64, text: Vec<char>) -> (l: SimLine)
    ensures
        l.delay_ms == delay_ms,
        l.text@ == text@,
{
    SimLine { delay_ms, text: string_of(&text) }
}

fn cat(parts: &mut Vec<char>, tail: &Vec<char>) -> (r: Vec<char>)
    ensures
        r@ == old(parts)@ + tail@,
{
    let mut r = parts.clone();
    push_all(&mut r, tail);
    r
}

fn hex_digit_up_of(d: u32) -> (c: char)
    requires
        d < 16,
    ensures
        c == hex_digit_up(d as nat),
{
    if d < 10 {
        ((d + 48) as u8) as char
    } else {
        ((d + 55) as u8) as char
    }
}

fn hex3_of(n: u32) -> (r: Vec<char>)
    requires
        n < 0x1000,
    ensures
        r@ == hex3(n as nat),
{
    let mut r: Vec<char> = Vec::new();
    r.push(hex_digit_up_of(n / 256));
    r.push(hex_digit_up_of((n / 16) % 16));
    r.push(hex_digit_up_of(n % 16));
    r
}

fn dmr_tail_of(cc: u32, kind: &str, tg: u32, rid: u32) -> (r: Vec<char>)
    ensures
        r@ == dmr_tail(cc, kind@, tg, rid),
{
    let mut t = chars_of(" DMR | Color Code=");
    push_all(&mut t, &dec_padded(cc as u64, 2));
    push_str(&mut t, " | ");
    push_str(&mut t, kind);
    push_str(&mut t, " | TG: ");
    push_all(&mut t, &dec_chars(tg as u64));
    push_str(&mut t, " | RID: ");
    push_all(&mut t, &dec_chars(rid as u64));
    t
}

fn dmr_call(rng: &mut Rng, frames: u32) -> (r: Vec<SimLine>)
    ensures
        ({
            let (rv, s2) = draw(old(rng)@);
            let slot = 1 + (rv & 1u64);
            let (cc, s3) = draw_range(s2, 1, 15);
            let (t, s4) = draw(s3);
            let tg = talkgroups()[(t % 6) as int];
            let (rr, s5) = draw_range(s4, 0, 9999);
            let (grp, s6) = draw_chance(s5, P_GROUP);
            let kind = if grp { "Group Call"@ } else { "Private Call"@ };
            &&& line_views(r@) == dmr_lines(frames, slot as u64, cc, kind, tg, (2_620_000 + rr) as u32)
            &&& final(rng)@ == s6
        }),
{
    let rv = rng.next_u64();
    let b: u64 = rv & 1;
    proof {
        lemma_low_bit(rv);
    }
    let slot: u64 = 1 + b;
    let cc = rng.range_u32(1, 15);
    let tgs: [u32; 6] = [9, 91, 214, 2311, 26212, 260210];
    assert(tgs@ == talkgroups());
    let tg = *rng.pick(&tgs);
    let rid = 2_620_000 + rng.range_u32(0, 9999);
    let grp = rng.chance(P_GROUP);
    let kind: &str = if grp {
        "Group Call"
    } else {
        "Private Call"
    };
    let ghost kv = if grp { "Group Call"@ } else { "Private Call"@ };
    assert(kind@ == kv);
    let tail = dmr_tail_of(cc, kind, tg, rid);
    let mut head = chars_of("Slot ");
    push_all(&mut head, &dec_chars(slot));
    let ghost ts = dmr_lines(frames, slot, cc, kv, tg, rid);
    let mut out: Vec<SimLine> = Vec::new();
    let mut t0 = chars_of("Sync: +DMR  [slot");
    push_all(&mut t0, &dec_chars(slot));
    push_str(&mut t0, "]  | Color Code=");
    push_all(&mut t0, &dec_padded(cc as u64, 2));
    push_str(&mut t0, " | VLC");
    out.push(line(0, t0));
    let mut t1 = head.clone();
    push_str(&mut t1, " TLC");
    push_all(&mut t1, &tail);
    out.push(line(60, t1));
    let mut i: u32 = 0;
    while i < frames
        invariant
            i <= frames,
            head@ == dmr_head(slot),
            tail@ == dmr_tail(cc, kv, tg, rid),
            ts == dmr_lines(frames, slot, cc, kv, tg, rid),
            line_views(out@) == ts.take(2 + i),
        decreases frames - i,
    {
        let mut ti = head.clone();
        push_str(&mut ti, " VC");
        push_all(&mut ti, &dec_chars((1 + i % 6) as u64));
        push_all(&mut ti, &tail);
        let l = line(360, ti);
        assert(ts[2 + i] == (l.delay_ms, l.text@));
        assert(ts.take(2 + i + 1) == ts.take(2 + i).push(ts[2 + i]));
        out.push(l);
        i += 1;
    }
    let mut te = head.clone();
    push_str(&mut te, " TLC DMR | Color Code=");
    push_all(&mut te, &dec_padded(cc as u64, 2));
    push_str(&mut te, " | Call End | TG: ");
    push_all(&mut te, &dec_chars(tg as u64));
    let l = line(200, te);
    assert(ts == ts.take(2 + frames).push(ts[2 + frames]));
    out.push(l);
    out
}

fn pick_call(rng: &mut Rng, calls: &Vec<String>) -> (r: Vec<char>)
    requires
        calls@.len() == 6,
        forall|i: int| 0 <= i < 6 ==> #[trigger] calls@[i]@ == callsigns()[i],
    ensures
        final(rng)@ == draw(old(rng)@).1,
        r@ == callsigns()[(draw(old(rng)@).0 % 6) as int],
{
    let c = rng.pick(calls.as_slice());
    chars_of(c.as_str())
}

fn repeat_line(out: &mut Vec<SimLine>, n: u32, delay_ms: u64, text: &Vec<char>)
    ensures
        line_views(final(out)@) == line_views(old(out)@) + Seq::new(n as nat, |i: int| (delay_ms, text@)),
{
    let mut i: u32 = 0;
    while i < n
        invariant
            i <= n,
            line_views(out@) == line_views(old(out)@) + Seq::new(i as nat, |k: int| (delay_ms, text@)),
        decreases n - i,
    {
        let ghost before = line_views(out@);
        out.push(line(delay_ms, text.clone()));
        assert(line_views(out@) == before.push((delay_ms, text@)));
        assert(Seq::new((i + 1) as nat, |k: int| (delay_ms, text@)) == Seq::new(i as nat, |k: int| (delay_ms, text@)).push((delay_ms, text@)));
        i += 1;
    }
}

fn ysf_call(rng: &mut Rng, frames: u32, calls: &Vec<String>) -> (r: Vec<SimLine>)
    requires
        calls@.len() == 6,
        forall|i: int| 0 <= i < 6 ==> #[trigger] calls@[i]@ == callsigns()[i],
    ensures
        ({
            let (c, s2) = draw(old(rng)@);
            let (all, s3) = draw_chance(s2, P_ALL);
            &&& line_views(r@) == ysf_lines(frames, callsigns()[(c % 6) as int], if all { "ALL"@ } else { "CQCQCQ"@ })
            &&& final(rng)@ == s3
        }),
{
    let src = pick_call(rng, calls);
    let all = rng.chance(P_ALL);
    let dst = chars_of(if all {
        "ALL"
    } else {
        "CQCQCQ"
    });
    let mut out: Vec<SimLine> = Vec::new();
    out.push(line(0, chars_of("Sync: +YSF VD2")));
    let ghost v0 = line_views(out@);
    assert(v0 == seq![(0u64, "Sync: +YSF VD2"@)]);
    let mut t = chars_of("YSF VD2 | DN | DST: ");
    push_all(&mut t, &pad_right_of(&dst, 8));
    push_str(&mut t, " | SRC: ");
    push_all(&mut t, &pad_right_of(&src, 8));
    push_str(&mut t, " | UL: DIRECT");
    repeat_line(&mut out, frames, 350, &t);
    let ghost v1 = line_views(out@);
    out.push(line(150, chars_of("YSF EOT")));
    assert(line_views(out@) == v1.push((150u64, "YSF EOT"@)));
    assert(Seq::new(frames as nat, |i: int| (350u64, t@)) == Seq::new(
        frames as nat,
        |i: int| (350u64, "YSF VD2 | DN | DST: "@ + pad_right(dst@, 8) + " | SRC: "@ + pad_right(src@, 8) + " | UL: DIRECT"@),
    ));
    assert(line_views(out@) == ysf_lines(frames, src@, dst@));
    out
}

fn dstar_call(rng: &mut Rng, frames: u32, calls: &Vec<String>) -> (r: Vec<SimLine>)
    requires
        calls@.len() == 6,
        forall|i: int| 0 <= i < 6 ==> #[trigger] calls@[i]@ == callsigns()[i],
    ensures
        line_views(r@) == dstar_lines(frames, callsigns()[(draw(old(rng)@).0 % 6) as int]),
        final(rng)@ == draw(old(rng)@).1,
{
    let my = pick_call(rng, calls);
    let mut out: Vec<SimLine> = Vec::new();
    out.push(line(0, chars_of("Sync: +DSTAR HD")));
    let ghost v0 = line_views(out@);
    assert(v0 == seq![(0u64, "Sync: +DSTAR HD"@)]);
    let mut t = chars_of("DSTAR | UR: CQCQCQ   | MY: ");
    push_all(&mut t, &my);
    push_str(&mut t, "/ID51 | RPT1: YU0RPT B | RPT2: YU0RPT G");
    repeat_line(&mut out, frames, 350, &t);
    let ghost v1 = line_views(out@);
    out.push(line(150, chars_of("DSTAR EOT")));
    assert(line_views(out@) == v1.push((150u64, "DSTAR EOT"@)));
    assert(Seq::new(frames as nat, |i: int| (350u64, t@)) == Seq::new(
        frames as nat,
        |i: int| (350u64, "DSTAR | UR: CQCQCQ   | MY: "@ + my@ + "/ID51 | RPT1: YU0RPT B | RPT2: YU0RPT G"@),
    ));
    assert(line_views(out@) == dstar_lines(frames, my@));
    out
}

fn nxdn_call(rng: &mut Rng, frames: u32) -> (r: Vec<SimLine>)
    ensures
        ({
            let (ran, s2) = draw_range(old(rng)@, 1, 63);
            let (tg, s3) = draw_range(s2, 100, 999);
            let (src, s4) = draw_range(s3, 1000, 9999);
            &&& line_views(r@) == nxdn_lines(frames, ran, tg, src)
            &&& final(rng)@ == s4
        }),
{
    let ran = rng.range_u32(1, 63);
    let tg = rng.range_u32(100, 999);
    let src = rng.range_u32(1000, 9999);
    let mut t = chars_of("NXDN48 VCH | RAN: ");
    push_all(&mut t, &dec_chars(ran as u64));
    push_str(&mut t, " | Group Call | TG: ");
    push_all(&mut t, &dec_chars(tg as u64));
    push_str(&mut t, " | SRC: ");
    push_all(&mut t, &dec_chars(src as u64));
    let mut out: Vec<SimLine> = Vec::new();
    repeat_line(&mut out, frames, 350, &t);
    assert(line_views(out@) == nxdn_lines(frames, ran, tg, src));
    out
}

fn p25_call(rng: &mut Rng, frames: u32) -> (r: Vec<SimLine>)
    ensures
        ({
            let (nac, s2) = draw_range(old(rng)@, 0x100, 0xFFF);
            let (tg, s3) = draw_range(s2, 10000, 65000);
            let (src, s4) = draw_range(s3, 1_000_000, 9_999_999);
            &&& line_views(r@) == p25_lines(frames, hex3(nac as nat), tg, src)
            &&& final(rng)@ == s4
        }),
{
    let nac_n = rng.range_u32(0x100, 0xFFF);
    let tg = rng.range_u32(10000, 65000);
    let src = rng.range_u32(1_000_000, 9_999_999);
    let nac = hex3_of(nac_n);
    let mut out: Vec<SimLine> = Vec::new();
    let mut h = chars_of("P25 HDU | NAC: ");
    push_all(&mut h, &nac);
    out.push(line(0, h));
    let mut rest = chars_of(" | NAC: ");
    push_all(&mut rest, &nac);
    push_str(&mut rest, " | Group Call | TG: ");
    push_all(&mut rest, &dec_chars(tg as u64));
    push_str(&mut rest, " | SRC: ");
    push_all(&mut rest, &dec_chars(src as u64));
    let ghost ts = p25_lines(frames, nac@, tg, src);
    let mut i: u32 = 0;
    while i < frames
        invariant
            i <= frames,
            ts == p25_lines(frames, nac@, tg, src),
            rest@ == " | NAC: "@ + nac@ + " | Group Call | TG: "@ + dec_str(tg as nat) + " | SRC: "@
                + dec_str(src as nat),
            line_views(out@) == ts.take(1 + i),
        decreases frames - i,
    {
        let mut ti = chars_of("P25 LDU");
        push_all(&mut ti, &dec_chars((1 + i % 2) as u64));
        push_all(&mut ti, &rest);
        let l = line(360, ti);
        assert(ts[1 + i] == (l.delay_ms, l.text@));
        assert(ts.take(1 + i + 1) == ts.take(1 + i).push(ts[1 + i]));
        out.push(l);
        i += 1;
    }
    let mut e = chars_of("P25 TDU | NAC: ");
    push_all(&mut e, &nac);
    let l = line(150, e);
    assert(ts == ts.take(1 + frames).push(ts[1 + frames]));
    out.push(l);
    out
}

fn m17_call(rng: &mut Rng, frames: u32, calls: &Vec<String>) -> (r: Vec<SimLine>)
    requires
        calls@.len() == 6,
        forall|i: int| 0 <= i < 6 ==> #[trigger] calls@[i]@ == callsigns()[i],
    ensures
        line_views(r@) == m17_lines(frames, callsigns()[(draw(old(rng)@).0 % 6) as int]),
        final(rng)@ == draw(old(rng)@).1,
{
    let src = pick_call(rng, calls);
    let mut t = chars_of("M17 STR | DST: ALL       | SRC: ");
    push_all(&mut t, &pad_right_of(&src, 9));
    push_str(&mut t, " | CAN: 0");
    let mut out: Vec<SimLine> = Vec::new();
    repeat_line(&mut out, frames, 350, &t);
    assert(line_views(out@) == m17_lines(frames, src@));
    out
}

impl VoiceSim {
    /// One complete call: setup, voice frames, teardown.
    pub fn call(&mut self) -> (r: Vec<SimLine>)
        requires
            old(self).wf(),
        ensures
            final(self).wf(),
            final(self).proto() == old(self).proto(),
            (line_views(r@), final(self).state()) == voice_call(old(self).proto(), old(self).state()),
    {
        let frames = self.rng.range_u32(6, 22);
        let p = chars_of(self.proto.as_str());
        if crate::text::seq_eq(&p, &chars_of("dmr")) {
            dmr_call(&mut self.rng, frames)
        } else if crate::text::seq_eq(&p, &chars_of("ysf")) {
            ysf_call(&mut self.rng, frames, &self.callsigns)
        } else if crate::text::seq_eq(&p, &chars_of("dstar")) {
            dstar_call(&mut self.rng, frames, &self.callsigns)
        } else if crate::text::seq_eq(&p, &chars_of("nxdn")) {
            nxdn_call(&mut self.rng, frames)
        } else if crate::text::seq_eq(&p, &chars_of("p25")) {
            p25_call(&mut self.rng, frames)
        } else {
            m17_call(&mut self.rng, frames, &self.callsigns)
        }
    }

    /// Silence between calls, ms.
    pub fn idle_gap_ms(&mut self) -> (ms: u64)
        ensures
            final(self).wf() == old(self).wf(),
            final(self).proto() == old(self).proto(),
            final(self).state() == draw(old(self).state()).1,
            ms == draw_range(old(self).state(), 1200, 5000).0,
    {
        self.rng.range_u32(1200, 5000) as u64
    }
}

// ------------------------------------------------------- parsing back

proof fn lemma_low_bit(x: u64)
    by (bit_vector)
    ensures
        x & 1 <= 1,
{
}

/// No proper suffix of `key` is a prefix of it, so two occurrences of
/// `key` never overlap.
pub open spec fn border_free(key: Seq<char>) -> bool {
    forall|d: int| 0 < d < key.len() ==> #[trigger] shifted_differs(key, d)
}

/// `key` shifted by `d` disagrees with itself somewhere.
pub open spec fn shifted_differs(key: Seq<char>, d: int) -> bool {
    exists|k: int| 0 <= k < key.len() - d && #[trigger] key[k] != key[d + k]
}

proof fn lemma_apart(s: Seq<char>, key: Seq<char>, a: int, b: int)
    requires
        border_free(key),
        matches_at(s, key, a),
        matches_at(s, key, b),
        a < b,
    ensures
        a + key.len() <= b,
{
    if b < a + key.len() {
        let d = b - a;
        assert(0 < d < key.len());
        assert(shifted_differs(key, d));
        let k = choose|k: int| 0 <= k < key.len() - d && #[trigger] key[k] != key[d + k];
        assert(s.subrange(a, a + key.len())[d + k] == s[b + k]);
        assert(s.subrange(b, b + key.len())[k] == s[b + k]);
    }
}

proof fn lemma_find_some(s: Seq<char>, p: Seq<char>, i: int, at: int)
    requires
        0 <= i <= at,
        matches_at(s, p, at),
    ensures
        find_from(s, p, i) matches Some(j) && i <= j <= at && matches_at(s, p, j),
    decreases at - i,
{
    if !matches_at(s, p, i) {
        lemma_find_some(s, p, i + 1, at);
    }
}

/// A char that can start a field's value.
pub open spec fn value_char(c: char) -> bool {
    !is_ws(c) && !is_kv_sep(c) && !is_field_end(c)
}

proof fn lemma_field_end(s: Seq<char>, i: int)
    requires
        0 <= i <= s.len(),
    ensures
        i <= field_end(s, i) <= s.len(),
    decreases s.len() - i,
{
    if i < s.len() && !is_field_end(s[i]) {
        lemma_field_end(s, i + 1);
    }
}

/// A key at `p` with a non-alphanumeric char before it, `:` or `=` after
/// it, then (after one space when `gap` is 2) a value char: it has a value.
proof fn lemma_value_at(s: Seq<char>, klen: int, p: int, gap: int)
    requires
        klen >= 1,
        1 <= p,
        gap == 1 || gap == 2,
        p + klen + gap < s.len(),
        !is_alnum(s[p - 1]),
        is_kv_sep(s[p + klen]),
        gap == 2 ==> s[p + klen + 1] == ' ',
        value_char(s[p + klen + gap]),
    ensures
        value_at(s, klen, p) is Some,
{
    let raw = s.skip(p + klen);
    assert(raw[0] == s[p + klen]);
    assert(raw[1] == s[p + klen + 1]);
    assert(!is_kv_sep(raw[1]));
    assert(skip_kv(raw, 1) == 1);
    assert(skip_kv(raw, 0) == 1);
    let r1 = raw.skip(1);
    let c = s[p + klen + gap];
    if gap == 2 {
        assert(r1[0] == ' ');
        assert(is_ws(' '));
        assert(r1[1] == c);
        assert(skip_ws(r1, 1) == 1);
        assert(skip_ws(r1, 0) == 1);
    } else {
        assert(r1[0] == c);
        assert(skip_ws(r1, 0) == 0);
    }
    let after = trim_start(r1);
    assert(after == r1.skip(gap - 1));
    assert(after[0] == c);
    lemma_field_end(after, 1);
    assert(field_end(after, 0) == field_end(after, 1));
    let fe = field_end(after, 0);
    let t = after.take(fe);
    assert(t[0] == c);
    assert(skip_ws(t, 0) == 0);
    lemma_skip_word(t, 1);
    assert(skip_word(t, 0) == skip_word(t, 1));
    let b = skip_word(t, 0);
    assert(tokens_from(t, 0) == seq![t.subrange(0, b)] + tokens_from(t, b));
    let val = first_word(t);
    assert(val == t.subrange(0, b));
    assert(val[0] == c);
    reveal_strlit(":");
    reveal_strlit("=");
    assert(val != ":"@) by {
        assert(":"@[0] == ':');
    }
    assert(val != "="@) by {
        assert("="@[0] == '=');
    }
}

/// The first occurrence of `key` that has a value wins; one that has one
/// at `at` means some occurrence does.
proof fn lemma_scan_some(s: Seq<char>, key: Seq<char>, start: int, at: int)
    requires
        key.len() >= 1,
        border_free(key),
        0 <= start <= at,
        matches_at(s, key, at),
        value_at(s, key.len() as int, at) is Some,
    ensures
        scan_key(s, key, start) is Some,
    decreases at - start,
{
    lemma_find_some(s, key, start, at);
    let j = find_from(s, key, start)->0;
    if value_at(s, key.len() as int, j) is None {
        lemma_apart(s, key, j, at);
        lemma_scan_some(s, key, j + key.len(), at);
    }
}

/// `pre + mid + val + rest` with `key` inside the literal-like `mid` at
/// `o`, set off as a `key: value` field: the key has a value.
proof fn lemma_key_value(
    pre: Seq<char>,
    mid: Seq<char>,
    val: Seq<char>,
    rest: Seq<char>,
    key: Seq<char>,
    o: int,
    gap: int,
)
    requires
        1 <= o,
        key.len() >= 1,
        border_free(key),
        gap == 1 || gap == 2,
        mid.len() == o + key.len() + gap,
        mid.subrange(o, o + key.len()) == key,
        !is_alnum(mid[o - 1]),
        is_kv_sep(mid[o + key.len()]),
        gap == 2 ==> mid[o + key.len() + 1] == ' ',
        val.len() > 0,
        value_char(val[0]),
    ensures
        scan_key(pre + mid + val + rest, key, 0) is Some,
{
    let s = pre + mid + val + rest;
    let p = pre.len() + o;
    let kl = key.len() as int;
    assert(s.subrange(p, p + kl) =~= mid.subrange(o, o + kl));
    assert(s[p - 1] == mid[o - 1]);
    assert(s[p + kl] == mid[o + kl]);
    if gap == 2 {
        assert(s[p + kl + 1] == mid[o + kl + 1]);
    }
    assert(s[p + kl + gap] == val[0]);
    lemma_value_at(s, kl, p, gap);
    lemma_scan_some(s, key, 0, p);
}


proof fn lemma_upper_cat(a: Seq<char>, b: Seq<char>)
    ensures
        upper_seq(a + b) == upper_seq(a) + upper_seq(b),
{
    assert(upper_seq(a + b) =~= upper_seq(a) + upper_seq(b));
}

proof fn lemma_digits_value_char(d: Seq<char>)
    requires
        d.len() > 0,
        all_digits(d),
    ensures
        value_char(d[0]),
        upper(d[0]) == d[0],
{
    assert(is_digit(d[0]));
}

proof fn lemma_cc2_digits(cc: u32)
    ensures
        cc2(cc).len() > 0,
        all_digits(cc2(cc)),
{
    let ccs = cc2(cc);
    let ds = dec_str(cc as nat);
    lemma_dec_str_digits(cc as nat);
    if ds.len() < 2 {
        assert forall|i: int| 0 <= i < ccs.len() implies is_digit(#[trigger] ccs[i]) by {
            if i >= (2 - ds.len()) as int {
                assert(ccs[i] == ds[i - (2 - ds.len())]);
            } else {
                assert(ccs[i] == '0');
            }
        }
    }
}

proof fn lemma_rid_free()
    ensures
        border_free("RID"@),
        border_free("SRC"@),
        border_free("MY"@),
{
    reveal_strlit("RID");
    reveal_strlit("SRC");
    reveal_strlit("MY");
    assert forall|dd: int| 0 < dd < 3 implies #[trigger] shifted_differs("RID"@, dd) by {
        assert("RID"@[0] != "RID"@[dd + 0]);
    }
    assert forall|dd: int| 0 < dd < 3 implies #[trigger] shifted_differs("SRC"@, dd) by {
        assert("SRC"@[0] != "SRC"@[dd + 0]);
    }
    assert forall|dd: int| 0 < dd < 2 implies #[trigger] shifted_differs("MY"@, dd) by {
        assert("MY"@[0] != "MY"@[dd + 0]);
    }
}

/// `pre + " | <key>: " + val`, `val` opening with a value char: the key
/// has a value.
proof fn lemma_bar_key(pre: Seq<char>, key_mid: Seq<char>, key: Seq<char>, val: Seq<char>, rest: Seq<char>)
    requires
        key.len() >= 1,
        border_free(key),
        key_mid == " | "@ + key + ": "@,
        val.len() > 0,
        value_char(val[0]),
    ensures
        scan_key(pre + key_mid + val + rest, key, 0) is Some,
{
    reveal_strlit(" | ");
    reveal_strlit(": ");
    assert(key_mid.subrange(3, 3 + key.len() as int) =~= key);
    lemma_key_value(pre, key_mid, val, rest, key, 3, 2);
}

/// `pre + " | <key>: " + digits`: the key has a value.
proof fn lemma_bar_key_digits(pre: Seq<char>, key_mid: Seq<char>, key: Seq<char>, n: nat, rest: Seq<char>)
    requires
        key.len() >= 1,
        border_free(key),
        key_mid == " | "@ + key + ": "@,
    ensures
        scan_key(pre + key_mid + dec_str(n) + rest, key, 0) is Some,
{
    reveal_strlit(" | ");
    reveal_strlit(": ");
    lemma_dec_str_digits(n);
    lemma_digits_value_char(dec_str(n));
    assert(key_mid.subrange(3, 3 + key.len() as int) =~= key);
    lemma_key_value(pre, key_mid, dec_str(n), rest, key, 3, 2);
}

proof fn lemma_dmr_src(slot: u64, cc: u32, kind: Seq<char>, tg: u32, rid: u32)
    ensures
        scan_key(dmr_head(slot) + " TLC"@ + dmr_tail(cc, kind, tg, rid), "RID"@, 0) is Some,
{
    reveal_strlit(" | RID: ");
    reveal_strlit(" | ");
    reveal_strlit(": ");
    reveal_strlit("RID");
    let line = dmr_head(slot) + " TLC"@ + dmr_tail(cc, kind, tg, rid);
    let pre = dmr_head(slot) + " TLC"@ + " DMR | Color Code="@ + cc2(cc) + " | "@ + kind + " | TG: "@ + dec_str(tg as nat);
    assert(" | RID: "@ =~= " | "@ + "RID"@ + ": "@);
    assert(line =~= pre + " | RID: "@ + dec_str(rid as nat) + Seq::<char>::empty());
    lemma_rid_free();
    lemma_bar_key_digits(pre, " | RID: "@, "RID"@, rid as nat, Seq::<char>::empty());
}

proof fn lemma_dmr_cc(slot: u64, cc: u32, kind: Seq<char>, tg: u32, rid: u32)
    ensures
        scan_key(upper_seq(dmr_head(slot) + " TLC"@ + dmr_tail(cc, kind, tg, rid)), "COLOR CODE"@, 0) is Some,
{
    reveal_strlit(" DMR | Color Code=");
    reveal_strlit(" DMR |");
    reveal_strlit(" Color Code=");
    reveal_strlit(" COLOR CODE=");
    reveal_strlit("COLOR CODE");
    let line = dmr_head(slot) + " TLC"@ + dmr_tail(cc, kind, tg, rid);
    let ccs = cc2(cc);
    lemma_cc2_digits(cc);
    let pre_c = dmr_head(slot) + " TLC"@ + " DMR |"@;
    let rest_c = " | "@ + kind + " | TG: "@ + dec_str(tg as nat) + " | RID: "@ + dec_str(rid as nat);
    assert(" DMR | Color Code="@ =~= " DMR |"@ + " Color Code="@);
    assert(line =~= pre_c + " Color Code="@ + ccs + rest_c);
    lemma_upper_cat(pre_c + " Color Code="@ + ccs, rest_c);
    lemma_upper_cat(pre_c + " Color Code="@, ccs);
    lemma_upper_cat(pre_c, " Color Code="@);
    assert(upper_seq(" Color Code="@) =~= " COLOR CODE="@);
    assert(upper_seq(line) == upper_seq(pre_c) + " COLOR CODE="@ + upper_seq(ccs) + upper_seq(rest_c));
    assert forall|dd: int| 0 < dd < 10 implies #[trigger] shifted_differs("COLOR CODE"@, dd) by {
        if dd == 6 {
            assert("COLOR CODE"@[2] != "COLOR CODE"@[dd + 2]);
        } else {
            assert("COLOR CODE"@[0] != "COLOR CODE"@[dd + 0]);
        }
    }
    assert(" COLOR CODE="@.subrange(1, 11) =~= "COLOR CODE"@);
    lemma_digits_value_char(ccs);
    assert(upper_seq(ccs)[0] == ccs[0]);
    lemma_key_value(upper_seq(pre_c), " COLOR CODE="@, upper_seq(ccs), upper_seq(rest_c), "COLOR CODE"@, 1, 1);
}

proof fn lemma_dmr_slot(slot: u64, cc: u32, kind: Seq<char>, tg: u32, rid: u32)
    requires
        slot == 1 || slot == 2,
    ensures
        ({
            let up = upper_seq(dmr_head(slot) + " TLC"@ + dmr_tail(cc, kind, tg, rid));
            (slot == 1 ==> find_from(up, "SLOT 1"@, 0) is Some) && (slot == 2 ==> find_from(up, "SLOT 2"@, 0) is Some)
        }),
{
    reveal_strlit("Slot ");
    reveal_strlit("SLOT 1");
    reveal_strlit("SLOT 2");
    let line = dmr_head(slot) + " TLC"@ + dmr_tail(cc, kind, tg, rid);
    let up = upper_seq(line);
    assert(dec_str(slot as nat) == seq![digit_char(slot as nat)]);
    assert(line[5] == digit_char(slot as nat));
    if slot == 1 {
        assert(up.subrange(0, 6) =~= "SLOT 1"@);
        lemma_find_some(up, "SLOT 1"@, 0, 0);
    } else {
        assert(up.subrange(0, 6) =~= "SLOT 2"@);
        lemma_find_some(up, "SLOT 2"@, 0, 0);
    }
}

proof fn lemma_dmr_kind(slot: u64, cc: u32, kind: Seq<char>, tg: u32, rid: u32)
    ensures
        find_from(dmr_head(slot) + " TLC"@ + dmr_tail(cc, kind, tg, rid), kind, 0) is Some,
{
    let line = dmr_head(slot) + " TLC"@ + dmr_tail(cc, kind, tg, rid);
    let pre_k = dmr_head(slot) + " TLC"@ + " DMR | Color Code="@ + cc2(cc) + " | "@;
    assert(line =~= pre_k + kind + (" | TG: "@ + dec_str(tg as nat) + " | RID: "@ + dec_str(rid as nat)));
    assert(line.subrange(pre_k.len() as int, (pre_k.len() + kind.len()) as int) =~= kind);
    lemma_find_some(line, kind, 0, pre_k.len() as int);
}

/// The first DMR frame's line (`TLC`) carries slot, color code, call kind
/// and source.
proof fn lemma_dmr_line(slot: u64, cc: u32, kind: Seq<char>, tg: u32, rid: u32)
    requires
        slot == 1 || slot == 2,
        kind == "Group Call"@ || kind == "Private Call"@,
    ensures
        ({
            let f = spec_parse_line(dmr_head(slot) + " TLC"@ + dmr_tail(cc, kind, tg, rid));
            f.slot is Some && f.cc is Some && f.kind is Some && f.src is Some
        }),
{
    lemma_dmr_src(slot, cc, kind, tg, rid);
    lemma_dmr_cc(slot, cc, kind, tg, rid);
    lemma_dmr_slot(slot, cc, kind, tg, rid);
    lemma_dmr_kind(slot, cc, kind, tg, rid);
}

proof fn lemma_callsign(i: int)
    requires
        0 <= i < 6,
    ensures
        callsigns()[i].len() > 0,
        value_char(callsigns()[i][0]),
        callsigns()[i].len() <= 8,
{
    reveal_strlit("YU1ABC");
    reveal_strlit("YT2XYZ");
    reveal_strlit("S52DK");
    reveal_strlit("9A3W");
    reveal_strlit("OE7DK");
    reveal_strlit("HA5K");
}

proof fn lemma_pad_first(v: Seq<char>, w: nat)
    requires
        v.len() > 0,
    ensures
        pad_right(v, w).len() > 0,
        pad_right(v, w)[0] == v[0],
{
}

proof fn lemma_ysf_line(frames: u32, src: Seq<char>, dst: Seq<char>)
    requires
        src.len() > 0,
        value_char(src[0]),
    ensures
        scan_key("YSF VD2 | DN | DST: "@ + pad_right(dst, 8) + " | SRC: "@ + pad_right(src, 8) + " | UL: DIRECT"@, "SRC"@, 0) is Some,
{
    reveal_strlit(" | SRC: ");
    reveal_strlit(" | ");
    reveal_strlit(": ");
    reveal_strlit("SRC");
    assert(" | SRC: "@ =~= " | "@ + "SRC"@ + ": "@);
    lemma_rid_free();
    lemma_pad_first(src, 8);
    lemma_bar_key("YSF VD2 | DN | DST: "@ + pad_right(dst, 8), " | SRC: "@, "SRC"@, pad_right(src, 8), " | UL: DIRECT"@);
}

proof fn lemma_dstar_line(my: Seq<char>)
    requires
        my.len() > 0,
        value_char(my[0]),
    ensures
        scan_key("DSTAR | UR: CQCQCQ   | MY: "@ + my + "/ID51 | RPT1: YU0RPT B | RPT2: YU0RPT G"@, "MY"@, 0) is Some,
{
    reveal_strlit("DSTAR | UR: CQCQCQ   | MY: ");
    reveal_strlit("DSTAR | UR: CQCQCQ  ");
    reveal_strlit(" | MY: ");
    reveal_strlit(" | ");
    reveal_strlit(": ");
    reveal_strlit("MY");
    assert("DSTAR | UR: CQCQCQ   | MY: "@ =~= "DSTAR | UR: CQCQCQ  "@ + " | MY: "@);
    assert(" | MY: "@ =~= " | "@ + "MY"@ + ": "@);
    lemma_rid_free();
    lemma_bar_key("DSTAR | UR: CQCQCQ  "@, " | MY: "@, "MY"@, my, "/ID51 | RPT1: YU0RPT B | RPT2: YU0RPT G"@);
}

proof fn lemma_m17_line(src: Seq<char>)
    requires
        src.len() > 0,
        value_char(src[0]),
    ensures
        scan_key("M17 STR | DST: ALL       | SRC: "@ + pad_right(src, 9) + " | CAN: 0"@, "SRC"@, 0) is Some,
{
    reveal_strlit("M17 STR | DST: ALL       | SRC: ");
    reveal_strlit("M17 STR | DST: ALL      ");
    reveal_strlit(" | SRC: ");
    reveal_strlit(" | ");
    reveal_strlit(": ");
    reveal_strlit("SRC");
    assert("M17 STR | DST: ALL       | SRC: "@ =~= "M17 STR | DST: ALL      "@ + " | SRC: "@);
    assert(" | SRC: "@ =~= " | "@ + "SRC"@ + ": "@);
    lemma_rid_free();
    lemma_pad_first(src, 9);
    lemma_bar_key("M17 STR | DST: ALL      "@, " | SRC: "@, "SRC"@, pad_right(src, 9), " | CAN: 0"@);
}

proof fn lemma_src_digits_line(pre: Seq<char>, n: nat)
    ensures
        scan_key(pre + " | SRC: "@ + dec_str(n), "SRC"@, 0) is Some,
{
    reveal_strlit(" | SRC: ");
    reveal_strlit(" | ");
    reveal_strlit(": ");
    reveal_strlit("SRC");
    assert(" | SRC: "@ =~= " | "@ + "SRC"@ + ": "@);
    assert(pre + " | SRC: "@ + dec_str(n) =~= pre + " | SRC: "@ + dec_str(n) + Seq::<char>::empty());
    lemma_rid_free();
    lemma_bar_key_digits(pre, " | SRC: "@, "SRC"@, n, Seq::<char>::empty());
}

/// No call fields yet.
pub open spec fn no_call() -> CallView {
    CallView { slot: None, cc: None, tg: None, src: None, dst: None, kind: None, extra: seq![] }
}

/// The call fields of some decoder lines merged in order, each line's
/// fields replacing the ones it has.
pub open spec fn merge_lines(ls: Seq<(u64, Seq<char>)>) -> CallView
    decreases ls.len(),
{
    if ls.len() == 0 {
        no_call()
    } else {
        merged(merge_lines(ls.drop_last()), spec_parse_line(ls.last().1))
    }
}

proof fn lemma_merge_keeps(ls: Seq<(u64, Seq<char>)>, i: int)
    requires
        0 <= i < ls.len(),
    ensures
        spec_parse_line(ls[i].1).tg is Some ==> merge_lines(ls).tg is Some,
        spec_parse_line(ls[i].1).src is Some ==> merge_lines(ls).src is Some,
        spec_parse_line(ls[i].1).slot is Some ==> merge_lines(ls).slot is Some,
        spec_parse_line(ls[i].1).cc is Some ==> merge_lines(ls).cc is Some,
        spec_parse_line(ls[i].1).kind is Some ==> merge_lines(ls).kind is Some,
    decreases ls.len(),
{
    if i < ls.len() - 1 {
        lemma_merge_keeps(ls.drop_last(), i);
        assert(ls.drop_last()[i] == ls[i]);
    }
}

/// A simulated call of any protocol, fed line by line to the dsd-neo
/// parser and merged, yields a talkgroup or a source; a DMR call also
/// yields its slot, color code and call kind.
#[verifier::spinoff_prover]
#[verifier::rlimit(30)]
pub proof fn lemma_sim_calls_parse(proto: Seq<char>, st: u64)
    ensures
        ({
            let ls = voice_call(proto, st).0;
            let m = merge_lines(ls);
            &&& ls.len() > 0
            &&& m.tg is Some || m.src is Some
            &&& proto == "dmr"@ ==> m.slot is Some && m.cc is Some && m.kind is Some
        }),
{
    let (frames, s1) = draw_range(st, 6, 22);
    assert(frames >= 6);
    let ls = voice_call(proto, st).0;
    if proto == "dmr"@ {
        let (r, s2) = draw(s1);
        lemma_low_bit(r);
        let slot = 1 + (r & 1u64);
        let (cc, s3) = draw_range(s2, 1, 15);
        let (t, s4) = draw(s3);
        let tg = talkgroups()[(t % 6) as int];
        let (rr, s5) = draw_range(s4, 0, 9999);
        let (grp, s6) = draw_chance(s5, P_GROUP);
        let kind = if grp { "Group Call"@ } else { "Private Call"@ };
        let rid = (2_620_000 + rr) as u32;
        assert(ls == dmr_lines(frames, slot as u64, cc, kind, tg, rid));
        assert(ls[1].1 == dmr_head(slot as u64) + " TLC"@ + dmr_tail(cc, kind, tg, rid));
        lemma_dmr_line(slot as u64, cc, kind, tg, rid);
        lemma_merge_keeps(ls, 1);
    } else if proto == "ysf"@ {
        let (c, s2) = draw(s1);
        let (all, s3) = draw_chance(s2, P_ALL);
        let src = callsigns()[(c % 6) as int];
        let dst = if all { "ALL"@ } else { "CQCQCQ"@ };
        lemma_callsign((c % 6) as int);
        assert(ls == ysf_lines(frames, src, dst));
        lemma_ysf_line(frames, src, dst);
        lemma_merge_keeps(ls, 1);
    } else if proto == "dstar"@ {
        let (c, s2) = draw(s1);
        let my = callsigns()[(c % 6) as int];
        lemma_callsign((c % 6) as int);
        assert(ls == dstar_lines(frames, my));
        lemma_dstar_line(my);
        lemma_merge_keeps(ls, 1);
    } else if proto == "nxdn"@ {
        let (ran, s2) = draw_range(s1, 1, 63);
        let (tg, s3) = draw_range(s2, 100, 999);
        let (src, s4) = draw_range(s3, 1000, 9999);
        assert(ls == nxdn_lines(frames, ran, tg, src));
        lemma_src_digits_line(
            "NXDN48 VCH | RAN: "@ + dec_str(ran as nat) + " | Group Call | TG: "@ + dec_str(tg as nat),
            src as nat,
        );
        lemma_merge_keeps(ls, 0);
    } else if proto == "p25"@ {
        let (nac, s2) = draw_range(s1, 0x100, 0xFFF);
        let (tg, s3) = draw_range(s2, 10000, 65000);
        let (src, s4) = draw_range(s3, 1_000_000, 9_999_999);
        assert(ls == p25_lines(frames, hex3(nac as nat), tg, src));
        lemma_src_digits_line(
            "P25 LDU"@ + dec_str((1 + 0int % 2) as nat) + " | NAC: "@ + hex3(nac as nat) + " | Group Call | TG: "@
                + dec_str(tg as nat),
            src as nat,
        );
        lemma_merge_keeps(ls, 1);
    } else {
        let (c, s2) = draw(s1);
        let src = callsigns()[(c % 6) as int];
        lemma_callsign((c % 6) as int);
        assert(ls == m17_lines(frames, src));
        lemma_m17_line(src);
        lemma_merge_keeps(ls, 0);
    }
}

} // verus!
