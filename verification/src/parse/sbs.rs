//! SBS/BaseStation (port 30003) CSV lines into a live aircraft table.
//! Field layout (0-based): 0 `MSG`, 1 transmission type, 4 hex ident,
//! 10 callsign, 11 altitude, 12 ground speed, 13 track, 14 latitude,
//! 15 longitude, 16 vertical rate, 17 squawk.
//!
//! Decimal fields are kept as integers in fixed units (thousandths of a
//! knot or degree, ten-millionths of a degree for positions), read exactly
//! from the decimal text and truncated toward zero.

use vstd::prelude::*;
use crate::text::{clamp32, clamp64, dec_scaled, parse_scaled, split_char, split_on, string_of, trim, trim_of, views};

verus! {

fn to_i32(x: i64) -> (r: i32)
    ensures
        r == clamp32(x as int),
{
    if x < -0x8000_0000 {
        i32::MIN
    } else if x > 0x7fff_ffff {
        i32::MAX
    } else {
        x as i32
    }
}

// ---------------------------------------------------------------- aircraft

/// One aircraft as heard so far.
pub struct Aircraft {
    /// ICAO hex ident, upper case
    pub icao: String,
    pub callsign: String,
    /// altitude, feet
    pub alt: Option<i32>,
    /// ground speed, thousandths of a knot
    pub gs: Option<i64>,
    /// track, thousandths of a degree
    pub trk: Option<i64>,
    /// latitude, ten-millionths of a degree
    pub lat: Option<i64>,
    /// longitude, ten-millionths of a degree
    pub lon: Option<i64>,
    /// vertical rate, feet per minute
    pub vr: Option<i32>,
    pub squawk: String,
    pub msgs: u32,
    /// recent positions (lat, lon), oldest first: the radar trail
    pub trail: Vec<(i64, i64)>,
}

pub struct AircraftView {
    pub icao: Seq<char>,
    pub callsign: Seq<char>,
    pub alt: Option<i32>,
    pub gs: Option<i64>,
    pub trk: Option<i64>,
    pub lat: Option<i64>,
    pub lon: Option<i64>,
    pub vr: Option<i32>,
    pub squawk: Seq<char>,
    pub msgs: u32,
    pub trail: Seq<(i64, i64)>,
}

impl View for Aircraft {
    type V = AircraftView;

    open spec fn view(&self) -> AircraftView {
        AircraftView {
            icao: self.icao@,
            callsign: self.callsign@,
            alt: self.alt,
            gs: self.gs,
            trk: self.trk,
            lat: self.lat,
            lon: self.lon,
            vr: self.vr,
            squawk: self.squawk@,
            msgs: self.msgs,
            trail: self.trail@,
        }
    }
}

/// Most positions a trail keeps.
pub const TRAIL_LEN: usize = 24;

/// Smallest move that extends a trail, ten-millionths of a degree.
pub const TRAIL_STEP: i64 = 100;

/// A new aircraft with only its ident known.
pub open spec fn fresh(icao: Seq<char>) -> AircraftView {
    AircraftView {
        icao,
        callsign: Seq::empty(),
        alt: None,
        gs: None,
        trk: None,
        lat: None,
        lon: None,
        vr: None,
        squawk: Seq::empty(),
        msgs: 0,
        trail: Seq::empty(),
    }
}

/// Field `i`, trimmed, when present and not blank.
pub open spec fn field(f: Seq<Seq<char>>, i: int) -> Option<Seq<char>> {
    if 0 <= i < f.len() && trim(f[i]).len() > 0 {
        Some(trim(f[i]))
    } else {
        None
    }
}

/// Field `i` as a decimal scaled by `10^k`.
pub open spec fn num_field(f: Seq<Seq<char>>, i: int, k: nat) -> Option<int> {
    match field(f, i) {
        Some(t) => dec_scaled(t, k),
        None => None,
    }
}

pub open spec fn abs_diff(a: i64, b: i64) -> int {
    if a >= b {
        a - b
    } else {
        b - a
    }
}

/// The trail after a position fix: extended when the fix moved more than
/// one step from the last point, the oldest point dropped past the limit.
pub open spec fn trail_after(t: Seq<(i64, i64)>, p: (i64, i64)) -> Seq<(i64, i64)> {
    if t.len() == 0 || abs_diff(t.last().0, p.0) > TRAIL_STEP || abs_diff(t.last().1, p.1) > TRAIL_STEP {
        let u = t.push(p);
        if u.len() > TRAIL_LEN {
            u.skip(1)
        } else {
            u
        }
    } else {
        t
    }
}

pub open spec fn sat_inc32(x: u32) -> u32 {
    if x == u32::MAX {
        x
    } else {
        (x + 1) as u32
    }
}

/// The position a message carries: both coordinates or none.
pub open spec fn position(f: Seq<Seq<char>>) -> Option<(i64, i64)> {
    match (num_field(f, 14, 7), num_field(f, 15, 7)) {
        (Some(la), Some(lo)) => Some((clamp64(la), clamp64(lo))),
        _ => None,
    }
}

/// An aircraft after a message with fields `f`: each field present in the
/// message replaces the one held.
pub open spec fn applied(a: AircraftView, f: Seq<Seq<char>>) -> AircraftView {
    let pos = position(f);
    AircraftView {
        icao: a.icao,
        callsign: match field(f, 10) {
            Some(c) => c,
            None => a.callsign,
        },
        alt: match num_field(f, 11, 0) {
            Some(v) => Some(clamp32(v)),
            None => a.alt,
        },
        gs: match num_field(f, 12, 3) {
            Some(v) => Some(clamp64(v)),
            None => a.gs,
        },
        trk: match num_field(f, 13, 3) {
            Some(v) => Some(clamp64(v)),
            None => a.trk,
        },
        lat: match pos {
            Some(p) => Some(p.0),
            None => a.lat,
        },
        lon: match pos {
            Some(p) => Some(p.1),
            None => a.lon,
        },
        vr: match num_field(f, 16, 0) {
            Some(v) => Some(clamp32(v)),
            None => a.vr,
        },
        squawk: match field(f, 17) {
            Some(c) => c,
            None => a.squawk,
        },
        msgs: sat_inc32(a.msgs),
        trail: match pos {
            Some(p) => trail_after(a.trail, p),
            None => a.trail,
        },
    }
}

fn field_of(f: &Vec<Vec<char>>, i: usize) -> (r: Option<Vec<char>>)
    ensures
        r matches Some(t) ==> field(views(f@), i as int) == Some(t@),
        r is None ==> field(views(f@), i as int) is None,
{
    if i >= f.len() {
        return None;
    }
    assert(views(f@)[i as int] == f@[i as int]@);
    let t = trim_of(&f[i]);
    if t.len() == 0 {
        None
    } else {
        Some(t)
    }
}

fn num_field_of(f: &Vec<Vec<char>>, i: usize, k: usize) -> (r: Option<i64>)
    ensures
        r == (match num_field(views(f@), i as int, k as nat) {
            Some(v) => Some(clamp64(v)),
            None => None,
        }),
{
    match field_of(f, i) {
        Some(t) => parse_scaled(&t, k),
        None => None,
    }
}

fn abs_diff_of(a: i64, b: i64) -> (r: u64)
    ensures
        r == abs_diff(a, b),
{
    if a >= b {
        (a as i128 - b as i128) as u64
    } else {
        (b as i128 - a as i128) as u64
    }
}

fn update_trail(t: &mut Vec<(i64, i64)>, p: (i64, i64))
    ensures
        final(t)@ == trail_after(old(t)@, p),
{
    let n = t.len();
    let moved = if n == 0 {
        true
    } else {
        let last = t[n - 1];
        assert(last == old(t)@.last());
        abs_diff_of(last.0, p.0) > 100 || abs_diff_of(last.1, p.1) > 100
    };
    if moved {
        t.push(p);
        if t.len() > TRAIL_LEN {
            t.remove(0);
            assert(t@ =~= old(t)@.push(p).skip(1));
        }
    }
}

fn apply_fields(a: &mut Aircraft, f: &Vec<Vec<char>>)
    ensures
        final(a)@ == applied(old(a)@, views(f@)),
{
    a.msgs = a.msgs.saturating_add(1);
    if let Some(cs) = field_of(f, 10) {
        a.callsign = string_of(&cs);
    }
    if let Some(v) = num_field_of(f, 11, 0) {
        a.alt = Some(to_i32(v));
    }
    if let Some(v) = num_field_of(f, 12, 3) {
        a.gs = Some(v);
    }
    if let Some(v) = num_field_of(f, 13, 3) {
        a.trk = Some(v);
    }
    let la = num_field_of(f, 14, 7);
    let lo = num_field_of(f, 15, 7);
    if let (Some(x), Some(y)) = (la, lo) {
        a.lat = Some(x);
        a.lon = Some(y);
        update_trail(&mut a.trail, (x, y));
    }
    if let Some(v) = num_field_of(f, 16, 0) {
        a.vr = Some(to_i32(v));
    }
    if let Some(sq) = field_of(f, 17) {
        a.squawk = string_of(&sq);
    }
}

// ------------------------------------------------------------------ store

/// What `str::to_uppercase` gives for `s` (full Unicode case mapping).
pub uninterp spec fn upper_text(s: Seq<char>) -> Seq<char>;

/// `str::to_uppercase`; its result is named by `upper_text`, and nothing
/// more is claimed of it.
#[verifier::external_body]
fn to_uppercase(s: &str) -> (r: String)
    ensures
        r@ == upper_text(s@),
{
    s.to_uppercase()
}

pub open spec fn msg_tag() -> Seq<char> {
    seq!['M', 'S', 'G']
}

/// The comma-separated fields of a line.
pub open spec fn sbs_fields(line: Seq<char>) -> Seq<Seq<char>> {
    split_char(line, ',')
}

/// The aircraft a message is about: its hex ident, trimmed, upper case.
pub open spec fn sbs_key(f: Seq<Seq<char>>) -> Seq<char> {
    upper_text(trim(f[4]))
}

/// A usable message: `MSG` first, at least eleven fields, an ident.
pub open spec fn is_sbs(f: Seq<Seq<char>>) -> bool {
    f.len() >= 11 && f[0] == msg_tag() && sbs_key(f).len() > 0
}

/// Every aircraft appears once, and no trail is over the limit.
pub open spec fn sbs_wf(t: Seq<(AircraftView, u64)>) -> bool {
    &&& forall|i: int, j: int| 0 <= i < j < t.len() ==> t[i].0.icao != t[j].0.icao
    &&& forall|i: int| 0 <= i < t.len() ==> (#[trigger] t[i]).0.trail.len() <= TRAIL_LEN
}

/// Index of the aircraft with ident `key` at or after `i`, or -1.
pub open spec fn key_index(t: Seq<(AircraftView, u64)>, key: Seq<char>, i: int) -> int
    decreases t.len() - i,
{
    if i < 0 || i >= t.len() {
        -1
    } else if t[i].0.icao == key {
        i
    } else {
        key_index(t, key, i + 1)
    }
}

/// The table after a usable message heard at `now`: the aircraft it is
/// about is updated and marked heard, or added when new.
pub open spec fn stored(t: Seq<(AircraftView, u64)>, f: Seq<Seq<char>>, now: u64) -> Seq<(AircraftView, u64)> {
    stored_key(t, f, sbs_key(f), now)
}

/// The table after a message with fields `f` about the aircraft `key`.
pub open spec fn stored_key(t: Seq<(AircraftView, u64)>, f: Seq<Seq<char>>, key: Seq<char>, now: u64) -> Seq<(AircraftView, u64)> {
    let i = key_index(t, key, 0);
    if i >= 0 {
        t.update(i, (applied(t[i].0, f), now))
    } else {
        t.push((applied(fresh(key), f), now))
    }
}

pub open spec fn sat_inc64(x: u64) -> u64 {
    if x == u64::MAX {
        x
    } else {
        (x + 1) as u64
    }
}

proof fn lemma_key_index(t: Seq<(AircraftView, u64)>, key: Seq<char>, i: int)
    requires
        0 <= i,
    ensures
        -1 <= key_index(t, key, i) < t.len(),
        key_index(t, key, i) >= 0 ==> i <= key_index(t, key, i) && t[key_index(t, key, i)].0.icao
            == key,
        key_index(t, key, i) < 0 ==> forall|j: int| i <= j < t.len() ==> (#[trigger] t[j]).0.icao
            != key,
    decreases t.len() - i,
{
    if i < t.len() && t[i].0.icao != key {
        lemma_key_index(t, key, i + 1);
    }
}

proof fn lemma_key_index_at(t: Seq<(AircraftView, u64)>, key: Seq<char>, s: int, i: int)
    requires
        0 <= s <= i < t.len(),
        t[i].0.icao == key,
        forall|k: int| s <= k < i ==> (#[trigger] t[k]).0.icao != key,
    ensures
        key_index(t, key, s) == i,
    decreases i - s,
{
    if s < i {
        lemma_key_index_at(t, key, s + 1, i);
    }
}

proof fn lemma_key_index_first(t: Seq<(AircraftView, u64)>, key: Seq<char>, s: int)
    requires
        0 <= s,
    ensures
        key_index(t, key, s) >= 0 ==> forall|k: int| s <= k < key_index(t, key, s) ==> (#[trigger] t[k]).0.icao != key,
    decreases t.len() - s,
{
    if s < t.len() && t[s].0.icao != key {
        lemma_key_index_first(t, key, s + 1);
    }
}

/// What a message does to the aircraft it is about, by SBS field: 10
/// callsign, 11 altitude (ft), 12 ground speed and 13 track (thousandths),
/// 14/15 latitude and longitude (1e-7 degree, only as a pair), 16 vertical
/// rate, 17 squawk. A non-blank field replaces what was held; a blank or
/// absent one keeps it. The aircraft stays in the table under `key`, last
/// heard `now`, one message more.
pub proof fn lemma_message_fields(t: Seq<(AircraftView, u64)>, f: Seq<Seq<char>>, key: Seq<char>, now: u64)
    ensures
        ({
            let r = stored_key(t, f, key, now);
            let i = key_index(t, key, 0);
            let j = key_index(r, key, 0);
            let had = i >= 0;
            let old = if had { t[i].0 } else { fresh(key) };
            let a = r[j].0;
            let given = |k: int| 0 <= k < f.len() && trim(f[k]).len() > 0;
            let num = |k: int, p: nat| if given(k) { dec_scaled(trim(f[k]), p) } else { None };
            &&& 0 <= j < r.len()
            &&& a.icao == key
            &&& r[j].1 == now
            &&& r.len() == (if had { t.len() } else { t.len() + 1 })
            &&& a.squawk == (if given(17) { trim(f[17]) } else { old.squawk })
            &&& a.callsign == (if given(10) { trim(f[10]) } else { old.callsign })
            &&& a.alt == (match num(11, 0) { Some(v) => Some(clamp32(v)), None => old.alt })
            &&& a.gs == (match num(12, 3) { Some(v) => Some(clamp64(v)), None => old.gs })
            &&& a.trk == (match num(13, 3) { Some(v) => Some(clamp64(v)), None => old.trk })
            &&& a.vr == (match num(16, 0) { Some(v) => Some(clamp32(v)), None => old.vr })
            &&& (num(14, 7) is Some && num(15, 7) is Some ==> a.lat == Some(clamp64(num(14, 7)->0)) && a.lon
                == Some(clamp64(num(15, 7)->0)))
            &&& (num(14, 7) is None || num(15, 7) is None ==> a.lat == old.lat && a.lon == old.lon)
            &&& a.msgs == (if old.msgs == u32::MAX { old.msgs } else { (old.msgs + 1) as u32 })
        }),
{
    lemma_key_index(t, key, 0);
    let r = stored_key(t, f, key, now);
    let i = key_index(t, key, 0);
    lemma_key_index(r, key, 0);
    lemma_key_index_first(t, key, 0);
    if i >= 0 {
        assert(r[i].0.icao == key);
        assert forall|k: int| 0 <= k < i implies (#[trigger] r[k]).0.icao != key by {
            assert(r[k] == t[k]);
        }
        lemma_key_index_at(r, key, 0, i);
    } else {
        let n = t.len() as int;
        assert(r[n].0.icao == key);
        assert forall|k: int| 0 <= k < n implies (#[trigger] r[k]).0.icao != key by {
            assert(r[k] == t[k]);
        }
        lemma_key_index_at(r, key, 0, n);
    }
}

/// Live aircraft table fed by SBS lines; times are milliseconds.
pub struct AircraftStore {
    entries: Vec<(Aircraft, u64)>,
    total_msgs: u64,
}

impl View for AircraftStore {
    /// Each aircraft with the time it was last heard.
    type V = Seq<(AircraftView, u64)>;

    closed spec fn view(&self) -> Seq<(AircraftView, u64)> {
        self.entries@.map_values(|e: (Aircraft, u64)| (e.0@, e.1))
    }
}

impl AircraftStore {
    /// Usable messages heard so far.
    pub closed spec fn total(&self) -> u64 {
        self.total_msgs
    }

    /// Usable messages heard so far.
    pub fn total_msgs(&self) -> (r: u64)
        ensures
            r == self.total(),
    {
        self.total_msgs
    }

    pub fn new() -> (s: Self)
        ensures
            s@ == Seq::<(AircraftView, u64)>::empty(),
            s.total() == 0,
            sbs_wf(s@),
    {
        let s = AircraftStore { entries: Vec::new(), total_msgs: 0 };
        assert(s@ =~= Seq::<(AircraftView, u64)>::empty());
        s
    }

    /// Feed one line heard at `now`; true when it was a usable message.
    pub fn push_line(&mut self, line: &str, now: u64) -> (ok: bool)
        requires
            sbs_wf(old(self)@),
        ensures
            sbs_wf(final(self)@),
            ok == is_sbs(sbs_fields(line@)),
            !ok ==> final(self)@ == old(self)@ && final(self).total() == old(self).total(),
            ok ==> final(self)@ == stored(old(self)@, sbs_fields(line@), now) && final(self).total()
                == sat_inc64(old(self).total()),
    {
        let v = crate::text::chars_of(line);
        let f = split_on(&v, ',');
        assert(views(f@) == sbs_fields(line@));
        if f.len() < 11 {
            return false;
        }
        assert(views(f@)[4] == f@[4]@);
        let k4 = trim_of(&f[4]);
        let key = to_uppercase(string_of(&k4).as_str());
        self.push_message(&f, &key, now)
    }

    /// Feed the fields of one line, `key` being the aircraft's ident as
    /// read from field 4 (trimmed, upper case); true when the fields make
    /// a usable message.
    #[verifier::rlimit(40)]
    #[verifier::spinoff_prover]
    pub fn push_message(&mut self, f: &Vec<Vec<char>>, key: &String, now: u64) -> (ok: bool)
        requires
            sbs_wf(old(self)@),
        ensures
            sbs_wf(final(self)@),
            ok == (f@.len() >= 11 && views(f@)[0] == msg_tag() && key@.len() > 0),
            !ok ==> final(self)@ == old(self)@ && final(self).total() == old(self).total(),
            ok ==> final(self)@ == stored_key(old(self)@, views(f@), key@, now) && final(self).total()
                == sat_inc64(old(self).total()),
    {
        let ghost fv = views(f@);
        let msg = vec!['M', 'S', 'G'];
        if f.len() < 11 {
            return false;
        }
        assert(fv[0] == f@[0]@);
        if !crate::text::seq_eq(&f[0], &msg) {
            assert(msg@ =~= msg_tag());
            return false;
        }
        assert(msg@ =~= msg_tag());
        if key.as_str().unicode_len() == 0 {
            return false;
        }
        let key = key.clone();
        self.total_msgs = self.total_msgs.saturating_add(1);
        let ghost t = self@;
        let mut i: usize = 0;
        while i < self.entries.len()
            invariant
                i <= self.entries@.len(),
                self@ == t,
                self.entries@.len() == t.len(),
                key_index(t, key@, 0) == key_index(t, key@, i as int),
            ensures
                i <= self.entries@.len(),
                self@ == t,
                self.entries@.len() == t.len(),
                key_index(t, key@, 0) == key_index(t, key@, i as int),
                i < t.len() ==> t[i as int].0.icao == key@,
            decreases self.entries.len() - i,
        {
            assert(self@[i as int].0.icao == self.entries@[i as int].0.icao@);
            if self.entries[i].0.icao == key {
                break;
            }
            i += 1;
        }
        proof {
            lemma_key_index(t, key@, 0);
        }
        if i < self.entries.len() {
            assert(key_index(t, key@, 0) == i);
            let ghost before = self.entries@;
            let e = &mut self.entries[i];
            apply_fields(&mut e.0, &f);
            e.1 = now;
            proof {
                assert(self.entries@ == before.update(i as int, self.entries@[i as int]));
                assert(self@ =~= t.update(i as int, (applied(t[i as int].0, fv), now)));
                assert forall|a: int, b: int| 0 <= a < b < self@.len() implies self@[a].0.icao
                    != self@[b].0.icao by {
                    assert(t[a].0.icao != t[b].0.icao);
                }
                assert forall|a: int| 0 <= a < self@.len() implies (#[trigger] self@[a]).0.trail.len()
                    <= TRAIL_LEN by {
                    assert(t[a].0.trail.len() <= TRAIL_LEN);
                }
            }
        } else {
            let mut a = Aircraft {
                icao: key,
                callsign: String::new(),
                alt: None,
                gs: None,
                trk: None,
                lat: None,
                lon: None,
                vr: None,
                squawk: String::new(),
                msgs: 0,
                trail: Vec::new(),
            };
            assert(a@ == fresh(key@));
            apply_fields(&mut a, &f);
            self.entries.push((a, now));
            proof {
                assert(self@ =~= t.push((applied(fresh(key@), fv), now)));
                assert forall|x: int, y: int| 0 <= x < y < self@.len() implies self@[x].0.icao
                    != self@[y].0.icao by {
                    if y < t.len() {
                        assert(t[x].0.icao != t[y].0.icao);
                    } else {
                        assert(t[x].0.icao != key@);
                    }
                }
                assert forall|x: int| 0 <= x < self@.len() implies (#[trigger] self@[x]).0.trail.len()
                    <= TRAIL_LEN by {
                    if x < t.len() {
                        assert(t[x].0.trail.len() <= TRAIL_LEN);
                    }
                }
            }
        }
        true
    }
}

/// Milliseconds from `last` to `now` (zero when `now` is earlier).
pub open spec fn age_ms(now: u64, last: u64) -> u64 {
    if now >= last {
        (now - last) as u64
    } else {
        0
    }
}

/// Kept by a purge at `now`: heard within the last `max_age_s` whole
/// seconds.
pub open spec fn fresh_enough(e: (AircraftView, u64), now: u64, max_age_s: u64) -> bool {
    age_ms(now, e.1) / 1000 <= max_age_s
}

/// Each aircraft with its age at `now`.
pub open spec fn aged(t: Seq<(AircraftView, u64)>, now: u64) -> Seq<(AircraftView, u64)> {
    t.map_values(|e: (AircraftView, u64)| (e.0, age_ms(now, e.1)))
}

/// Row order: fresher first, then more messages first.
pub open spec fn row_le(a: (AircraftView, u64), b: (AircraftView, u64)) -> bool {
    a.1 < b.1 || (a.1 == b.1 && a.0.msgs >= b.0.msgs)
}

pub open spec fn rows_sorted(r: Seq<(AircraftView, u64)>) -> bool {
    forall|i: int, j: int| 0 <= i < j < r.len() ==> row_le(r[i], r[j])
}

pub open spec fn row_views(r: Seq<(Aircraft, u64)>) -> Seq<(AircraftView, u64)> {
    r.map_values(|e: (Aircraft, u64)| (e.0@, e.1))
}

proof fn lemma_wf_remove(t: Seq<(AircraftView, u64)>, i: int)
    requires
        sbs_wf(t),
        0 <= i < t.len(),
    ensures
        sbs_wf(t.remove(i)),
{
    let u = t.remove(i);
    assert forall|a: int, b: int| 0 <= a < b < u.len() implies u[a].0.icao != u[b].0.icao by {
        let a2 = if a < i { a } else { a + 1 };
        let b2 = if b < i { b } else { b + 1 };
        assert(u[a] == t[a2] && u[b] == t[b2]);
    }
    assert forall|a: int| 0 <= a < u.len() implies (#[trigger] u[a]).0.trail.len() <= TRAIL_LEN by {
        let a2 = if a < i { a } else { a + 1 };
        assert(u[a] == t[a2]);
    }
}

fn copy_aircraft(a: &Aircraft) -> (r: Aircraft)
    ensures
        r@ == a@,
{
    let mut trail: Vec<(i64, i64)> = Vec::new();
    let mut i: usize = 0;
    while i < a.trail.len()
        invariant
            i <= a.trail@.len(),
            trail@ == a.trail@.take(i as int),
        decreases a.trail.len() - i,
    {
        trail.push(a.trail[i]);
        i += 1;
        assert(trail@ =~= a.trail@.take(i as int));
    }
    assert(a.trail@.take(a.trail@.len() as int) =~= a.trail@);
    Aircraft {
        icao: a.icao.clone(),
        callsign: a.callsign.clone(),
        alt: a.alt,
        gs: a.gs,
        trk: a.trk,
        lat: a.lat,
        lon: a.lon,
        vr: a.vr,
        squawk: a.squawk.clone(),
        msgs: a.msgs,
        trail,
    }
}

impl AircraftStore {
    /// Drop the aircraft not heard within the last `max_age_s` seconds.
    #[verifier::rlimit(40)]
    #[verifier::spinoff_prover]
    pub fn purge(&mut self, now: u64, max_age_s: u64)
        requires
            sbs_wf(old(self)@),
        ensures
            sbs_wf(final(self)@),
            final(self)@ == old(self)@.filter(|e: (AircraftView, u64)| fresh_enough(e, now, max_age_s)),
            final(self).total() == old(self).total(),
    {
        let ghost t = self@;
        let ghost p = |e: (AircraftView, u64)| fresh_enough(e, now, max_age_s);
        let mut i: usize = 0;
        let ghost mut k: int = 0;
        assert(t.take(0).filter(p) =~= Seq::<(AircraftView, u64)>::empty());
        assert(self@.skip(0) =~= t);
        while i < self.entries.len()
            invariant
                0 <= i <= k <= t.len(),
                i <= self.entries@.len(),
                self@.len() == self.entries@.len(),
                self@.len() - i == t.len() - k,
                sbs_wf(self@),
                self.total_msgs == old(self).total_msgs,
                p == (|e: (AircraftView, u64)| fresh_enough(e, now, max_age_s)),
                self@.take(i as int) == t.take(k).filter(p),
                self@.skip(i as int) == t.skip(k),
            decreases self.entries.len() - i,
        {
            assert(self@[i as int] == t[k]) by {
                assert(self@.skip(i as int)[0] == t.skip(k)[0]);
            }
            assert(self@[i as int].1 == self.entries@[i as int].1);
            let last = self.entries[i].1;
            let age = if now >= last {
                now - last
            } else {
                0
            };
            assert(t.take(k + 1) =~= t.take(k).push(t[k]));
            proof {
                t.take(k).lemma_filter_push(t[k], p);
            }
            if age / 1000 <= max_age_s {
                assert(p(t[k]));
                assert(t.take(k + 1).filter(p) == t.take(k).filter(p).push(t[k]));
                assert(self@.take(i + 1) =~= self@.take(i as int).push(self@[i as int]));
                assert(self@.skip(i + 1) =~= self@.skip(i as int).skip(1));
                assert(t.skip(k + 1) =~= t.skip(k).skip(1));
                i += 1;
            } else {
                assert(!p(t[k]));
                assert(t.take(k + 1).filter(p) == t.take(k).filter(p));
                let ghost before = self@;
                self.entries.remove(i);
                proof {
                    assert(self@ =~= before.remove(i as int));
                    lemma_wf_remove(before, i as int);
                    assert(self@.take(i as int) =~= before.take(i as int));
                    assert(self@.skip(i as int) =~= before.skip(i + 1));
                    assert(before.skip(i + 1) =~= before.skip(i as int).skip(1));
                    assert(t.skip(k + 1) =~= t.skip(k).skip(1));
                }
            }
            proof {
                k = k + 1;
            }
        }
        proof {
            assert(self@.skip(i as int).len() == 0);
            assert(k == t.len());
            assert(t.take(k) =~= t);
            assert(self@.take(i as int) =~= self@);
        }
    }

    /// The aircraft with their age in milliseconds at `now`: fresher
    /// first, then more messages first.
    #[verifier::rlimit(40)]
    #[verifier::spinoff_prover]
    pub fn rows(&self, now: u64) -> (r: Vec<(Aircraft, u64)>)
        ensures
            rows_sorted(row_views(r@)),
            row_views(r@).to_multiset() == aged(self@, now).to_multiset(),
    {
        broadcast use vstd::seq_lib::group_to_multiset_ensures;

        let ghost src = aged(self@, now);
        let mut out: Vec<(Aircraft, u64)> = Vec::new();
        let mut i: usize = 0;
        assert(src.take(0) =~= Seq::<(AircraftView, u64)>::empty());
        assert(row_views(out@) =~= Seq::<(AircraftView, u64)>::empty());
        while i < self.entries.len()
            invariant
                i <= self.entries@.len(),
                src == aged(self@, now),
                src.len() == self.entries@.len(),
                rows_sorted(row_views(out@)),
                row_views(out@).to_multiset() == src.take(i as int).to_multiset(),
            decreases self.entries.len() - i,
        {
            let last = self.entries[i].1;
            let age = if now >= last {
                now - last
            } else {
                0
            };
            let a = copy_aircraft(&self.entries[i].0);
            let ghost x = (a@, age);
            assert(x == src[i as int]) by {
                assert(self@[i as int] == (self.entries@[i as int].0@, self.entries@[i as int].1));
            }
            let mut pos: usize = 0;
            while pos < out.len()
                invariant
                    pos <= out@.len(),
                    x == (a@, age),
                    forall|q: int| 0 <= q < pos ==> row_le(row_views(out@)[q], x),
                ensures
                    pos <= out@.len(),
                    forall|q: int| 0 <= q < pos ==> row_le(row_views(out@)[q], x),
                    pos < out@.len() ==> !row_le(row_views(out@)[pos as int], x),
                decreases out.len() - pos,
            {
                assert(row_views(out@)[pos as int] == (out@[pos as int].0@, out@[pos as int].1));
                let o = &out[pos];
                if age < o.1 || (age == o.1 && a.msgs > o.0.msgs) {
                    break;
                }
                pos += 1;
            }
            let ghost rv = row_views(out@);
            proof {
                if pos < out@.len() {
                    assert(!row_le(rv[pos as int], x));
                }
            }
            out.insert(pos, (a, age));
            proof {
                assert(row_views(out@) =~= rv.insert(pos as int, x));
                vstd::seq_lib::to_multiset_insert(rv, pos as int, x);
                assert(src.take(i + 1) =~= src.take(i as int).push(x));
                vstd::seq_lib::to_multiset_build(src.take(i as int), x);
                assert(row_views(out@).to_multiset() == src.take(i + 1).to_multiset());
                let nv = row_views(out@);
                rv.insert_ensures(pos as int, x);
                assert forall|a1: int, b1: int| 0 <= a1 < b1 < nv.len() implies row_le(nv[a1], nv[b1]) by {
                    if b1 < pos {
                    } else if b1 == pos {
                    } else if a1 < pos {
                        assert(row_le(rv[a1], rv[b1 - 1]));
                    } else if a1 == pos {
                        assert(!row_le(rv[pos as int], x));
                        assert(row_le(rv[pos as int], rv[b1 - 1]) || pos == b1 - 1);
                    } else {
                        assert(row_le(rv[a1 - 1], rv[b1 - 1]));
                    }
                }
            }
            i += 1;
        }
        assert(src.take(i as int) =~= src);
        out
    }

    /// How many aircraft are in the table.
    pub fn len(&self) -> (r: usize)
        ensures
            r == self@.len(),
    {
        self.entries.len()
    }

    pub fn is_empty(&self) -> (r: bool)
        ensures
            r == (self@.len() == 0),
    {
        self.entries.len() == 0
    }
}

impl Default for AircraftStore {
    fn default() -> (s: Self)
        ensures
            s@ == Seq::<(AircraftView, u64)>::empty(),
            s.total() == 0,
    {
        Self::new()
    }
}

} // verus!
