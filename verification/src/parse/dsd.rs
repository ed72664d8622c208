//! dsd-neo / DSD-FME output: tolerant field extraction for the live call
//! card. DMR gets slot + color code + TG + RID; YSF/D-STAR/M17 get their
//! callsign fields; NXDN RAN; P25 NAC.

use vstd::prelude::*;
use crate::text::{
    alnum, chars_of, contains, contains_str, find_at, is_alnum, lemma_find_from_bounds,
    find_from, next_token, seq_eq, slice, string_of, tokens, trim_start, upper_all,
    upper_seq, trim_start_of,
};

verus! {

#[derive(Clone, Debug, PartialEq)]
pub struct CallFields {
    pub slot: Option<u8>,
    pub cc: Option<String>,
    pub tg: Option<String>,
    pub src: Option<String>,
    pub dst: Option<String>,
    pub kind: Option<String>,
    pub extra: Vec<(String, String)>,
}

pub struct CallView {
    pub slot: Option<u8>,
    pub cc: Option<Seq<char>>,
    pub tg: Option<Seq<char>>,
    pub src: Option<Seq<char>>,
    pub dst: Option<Seq<char>>,
    pub kind: Option<Seq<char>>,
    pub extra: Seq<(Seq<char>, Seq<char>)>,
}

pub open spec fn opt_str(o: Option<String>) -> Option<Seq<char>> {
    match o {
        Some(s) => Some(s@),
        None => None,
    }
}

pub open spec fn pair_views(v: Seq<(String, String)>) -> Seq<(Seq<char>, Seq<char>)> {
    v.map_values(|p: (String, String)| (p.0@, p.1@))
}

impl View for CallFields {
    type V = CallView;

    open spec fn view(&self) -> CallView {
        CallView {
            slot: self.slot,
            cc: opt_str(self.cc),
            tg: opt_str(self.tg),
            src: opt_str(self.src),
            dst: opt_str(self.dst),
            kind: opt_str(self.kind),
            extra: pair_views(self.extra@),
        }
    }
}

pub open spec fn call_is_empty(f: CallView) -> bool {
    &&& f.slot is None
    &&& f.cc is None
    &&& f.tg is None
    &&& f.src is None
    &&& f.dst is None
    &&& f.kind is None
    &&& f.extra.len() == 0
}

/// First index `>= i` whose key is `k` (or the length).
pub open spec fn key_pos(a: Seq<(Seq<char>, Seq<char>)>, k: Seq<char>, i: int) -> int
    decreases a.len() - i,
{
    if i < 0 || i >= a.len() {
        a.len() as int
    } else if a[i].0 == k {
        i
    } else {
        key_pos(a, k, i + 1)
    }
}

/// Set the value of the first entry keyed like `e`, or append `e`.
pub open spec fn put(a: Seq<(Seq<char>, Seq<char>)>, e: (Seq<char>, Seq<char>)) -> Seq<(Seq<char>, Seq<char>)> {
    let i = key_pos(a, e.0, 0);
    if 0 <= i < a.len() {
        a.update(i, (a[i].0, e.1))
    } else {
        a.push(e)
    }
}

pub open spec fn merge_extra(a: Seq<(Seq<char>, Seq<char>)>, b: Seq<(Seq<char>, Seq<char>)>) -> Seq<(Seq<char>, Seq<char>)>
    decreases b.len(),
{
    if b.len() == 0 {
        a
    } else {
        put(merge_extra(a, b.drop_last()), b.last())
    }
}

pub open spec fn newer<T>(mine: Option<T>, other: Option<T>) -> Option<T> {
    if other is Some {
        other
    } else {
        mine
    }
}

/// Every field `b` has replaces the one in `a`; extras are merged by key.
pub open spec fn merged(a: CallView, b: CallView) -> CallView {
    CallView {
        slot: newer(a.slot, b.slot),
        cc: newer(a.cc, b.cc),
        tg: newer(a.tg, b.tg),
        src: newer(a.src, b.src),
        dst: newer(a.dst, b.dst),
        kind: newer(a.kind, b.kind),
        extra: merge_extra(a.extra, b.extra),
    }
}

impl Default for CallFields {
    fn default() -> (r: Self)
        ensures
            call_is_empty(r@),
    {
        CallFields { slot: None, cc: None, tg: None, src: None, dst: None, kind: None, extra: Vec::new() }
    }
}

fn key_pos_of(a: &Vec<(String, String)>, k: &String) -> (r: usize)
    ensures
        r == key_pos(pair_views(a@), k@, 0),
        r <= a@.len(),
{
    let ghost av = pair_views(a@);
    let mut i: usize = 0;
    while i < a.len()
        invariant
            i <= a@.len(),
            av == pair_views(a@),
            key_pos(av, k@, 0) == key_pos(av, k@, i as int),
        decreases a.len() - i,
    {
        if a[i].0 == *k {
            return i;
        }
        i += 1;
    }
    i
}

impl CallFields {
    pub fn is_empty(&self) -> (b: bool)
        ensures
            b == call_is_empty(self@),
    {
        self.slot.is_none() && self.cc.is_none() && self.tg.is_none() && self.src.is_none()
            && self.dst.is_none() && self.kind.is_none() && self.extra.len() == 0
    }

    /// Fold a newer reading into this one: what `other` has wins.
    pub fn merge(&mut self, other: CallFields)
        ensures
            final(self)@ == merged(old(self)@, other@),
    {
        if other.slot.is_some() {
            self.slot = other.slot;
        }
        if other.cc.is_some() {
            self.cc = other.cc;
        }
        if other.tg.is_some() {
            self.tg = other.tg;
        }
        if other.src.is_some() {
            self.src = other.src;
        }
        if other.dst.is_some() {
            self.dst = other.dst;
        }
        if other.kind.is_some() {
            self.kind = other.kind;
        }
        let ghost a0 = pair_views(self.extra@);
        let ghost bv = pair_views(other.extra@);
        let mut j: usize = 0;
        while j < other.extra.len()
            invariant
                j <= other.extra@.len(),
                bv == pair_views(other.extra@),
                a0 == pair_views(old(self).extra@),
                pair_views(self.extra@) == merge_extra(a0, bv.take(j as int)),
                self.slot == newer(old(self).slot, other.slot),
                opt_str(self.cc) == newer(opt_str(old(self).cc), opt_str(other.cc)),
                opt_str(self.tg) == newer(opt_str(old(self).tg), opt_str(other.tg)),
                opt_str(self.src) == newer(opt_str(old(self).src), opt_str(other.src)),
                opt_str(self.dst) == newer(opt_str(old(self).dst), opt_str(other.dst)),
                opt_str(self.kind) == newer(opt_str(old(self).kind), opt_str(other.kind)),
            decreases other.extra.len() - j,
        {
            assert(bv.take(j + 1).drop_last() == bv.take(j as int));
            let k = other.extra[j].0.clone();
            let v = other.extra[j].1.clone();
            let i = key_pos_of(&self.extra, &k);
            if i < self.extra.len() {
                let key = self.extra[i].0.clone();
                let ghost before = pair_views(self.extra@);
                self.extra.set(i, (key, v));
                assert(pair_views(self.extra@) == before.update(i as int, (before[i as int].0, v@)));
            } else {
                let ghost before = pair_views(self.extra@);
                self.extra.push((k, v));
                assert(pair_views(self.extra@) == before.push((k@, v@)));
            }
            j += 1;
        }
        assert(bv.take(other.extra@.len() as int) == bv);
    }
}


// --------------------------------------------------------- field values

pub open spec fn is_kv_sep(c: char) -> bool {
    c == ':' || c == '='
}

/// First index `>= i` that is not `:` or `=` (or the length).
pub open spec fn skip_kv(s: Seq<char>, i: int) -> int
    decreases s.len() - i,
{
    if i < 0 || i >= s.len() {
        i
    } else if is_kv_sep(s[i]) {
        skip_kv(s, i + 1)
    } else {
        i
    }
}

pub open spec fn is_field_end(c: char) -> bool {
    c == '|' || c == ',' || c == ';'
}

/// First index `>= i` holding `|`, `,` or `;` (or the length).
pub open spec fn field_end(s: Seq<char>, i: int) -> int
    decreases s.len() - i,
{
    if i < 0 || i >= s.len() {
        s.len() as int
    } else if is_field_end(s[i]) {
        i
    } else {
        field_end(s, i + 1)
    }
}

pub open spec fn first_word(s: Seq<char>) -> Seq<char> {
    let t = tokens(s);
    if t.len() > 0 {
        t[0]
    } else {
        seq![]
    }
}

/// The value of a key of length `klen` found at `at`: the key must stand
/// on a token boundary before it and be followed by `:`, `=` or a space;
/// the value is the first word up to the next `|`, `,` or `;`.
pub open spec fn value_at(line: Seq<char>, klen: int, at: int) -> Option<Seq<char>> {
    let raw = line.skip(at + klen);
    let ok_before = at == 0 || !is_alnum(line[at - 1]);
    let ok_after = raw.len() > 0 && (is_kv_sep(raw[0]) || raw[0] == ' ');
    let after = trim_start(raw.skip(skip_kv(raw, 0)));
    let val = first_word(after.take(field_end(after, 0)));
    if ok_before && ok_after && after.len() > 0 && val.len() > 0 && val != ":"@ && val != "="@ {
        Some(val)
    } else {
        None
    }
}

/// The value of the first occurrence of `key` at or after `start` that
/// has one.
pub open spec fn scan_key(line: Seq<char>, key: Seq<char>, start: int) -> Option<Seq<char>>
    decreases line.len() + 1 - start,
{
    if key.len() == 0 || start < 0 {
        None
    } else {
        match find_from(line, key, start) {
            None => None,
            Some(at) => match value_at(line, key.len() as int, at) {
                Some(v) => Some(v),
                None => if start < at + key.len() <= line.len() {
                    scan_key(line, key, at + key.len())
                } else {
                    None
                },
            },
        }
    }
}

pub open spec fn either(a: Option<Seq<char>>, b: Option<Seq<char>>) -> Option<Seq<char>> {
    if a is Some {
        a
    } else {
        b
    }
}

fn skip_kv_at(s: &Vec<char>) -> (r: usize)
    ensures
        r == skip_kv(s@, 0),
        r <= s@.len(),
{
    let mut i: usize = 0;
    while i < s.len() && (s[i] == ':' || s[i] == '=')
        invariant
            i <= s@.len(),
            skip_kv(s@, 0) == skip_kv(s@, i as int),
        decreases s.len() - i,
    {
        i += 1;
    }
    i
}

fn field_end_at(s: &Vec<char>) -> (r: usize)
    ensures
        r == field_end(s@, 0),
        r <= s@.len(),
{
    let mut i: usize = 0;
    while i < s.len() && !(s[i] == '|' || s[i] == ',' || s[i] == ';')
        invariant
            i <= s@.len(),
            field_end(s@, 0) == field_end(s@, i as int),
        decreases s.len() - i,
    {
        i += 1;
    }
    i
}

fn value_at_of(line: &Vec<char>, klen: usize, at: usize) -> (r: Option<Vec<char>>)
    requires
        at + klen <= line@.len(),
    ensures
        r matches Some(v) ==> value_at(line@, klen as int, at as int) == Some(v@),
        r is None ==> value_at(line@, klen as int, at as int) is None,
{
    let n = line.len();
    let p = at + klen;
    let ok_before = at == 0 || !alnum(line[at - 1]);
    let ok_after = p < n && (line[p] == ':' || line[p] == '=' || line[p] == ' ');
    let raw = slice(line, p, n);
    assert(raw@ == line@.skip(at + klen));
    if !(ok_before && ok_after) {
        return None;
    }
    let q = skip_kv_at(&raw);
    let a1 = slice(&raw, q, raw.len());
    assert(a1@ == raw@.skip(q as int));
    let after = trim_start_of(&a1);
    if after.len() == 0 {
        return None;
    }
    let e = field_end_at(&after);
    let head = slice(&after, 0, e);
    assert(head@ == after@.take(e as int));
    let val = match next_token(&head, 0) {
        Some((x, y)) => slice(&head, x, y),
        None => Vec::new(),
    };
    assert(val@ == first_word(head@));
    let colon = chars_of(":");
    let equals = chars_of("=");
    if val.len() > 0 && !seq_eq(&val, &colon) && !seq_eq(&val, &equals) {
        Some(val)
    } else {
        None
    }
}

/// The value following `key` in `line`: `TG: 91`, `TG=91`, `TG 91`.
fn scan_key_of(line: &Vec<char>, key: &str) -> (r: Option<Vec<char>>)
    ensures
        r matches Some(v) ==> scan_key(line@, key@, 0) == Some(v@),
        r is None ==> scan_key(line@, key@, 0) is None,
{
    let kv = chars_of(key);
    if kv.len() == 0 {
        return None;
    }
    let mut start: usize = 0;
    let n = line.len();
    loop
        invariant
            n == line@.len(),
            start <= line@.len(),
            kv@ == key@,
            kv@.len() > 0,
            scan_key(line@, key@, start as int) == scan_key(line@, key@, 0),
        decreases line@.len() + 1 - start,
    {
        match find_at(line, &kv, start) {
            None => {
                return None;
            },
            Some(at) => {
                proof {
                    lemma_find_from_bounds(line@, key@, start as int);
                }
                match value_at_of(line, kv.len(), at) {
                    Some(v) => {
                        return Some(v);
                    },
                    None => {
                        start = at + kv.len();
                    },
                }
            },
        }
    }
}

fn either_of(a: Option<Vec<char>>, b: Option<Vec<char>>) -> (r: Option<Vec<char>>)
    ensures
        opt_chars(r) == either(opt_chars(a), opt_chars(b)),
{
    if a.is_some() {
        a
    } else {
        b
    }
}

pub open spec fn opt_chars(o: Option<Vec<char>>) -> Option<Seq<char>> {
    match o {
        Some(v) => Some(v@),
        None => None,
    }
}

fn to_string_opt(o: Option<Vec<char>>) -> (r: Option<String>)
    ensures
        opt_str(r) == opt_chars(o),
{
    match o {
        Some(v) => Some(string_of(&v)),
        None => None,
    }
}

// ----------------------------------------------------------------- lines

pub open spec fn slot_of(up: Seq<char>) -> Option<u8> {
    if contains(up, "SLOT 1"@) || contains(up, "TS1"@) || contains(up, "SLOT1"@) {
        Some(1u8)
    } else if contains(up, "SLOT 2"@) || contains(up, "TS2"@) || contains(up, "SLOT2"@) {
        Some(2u8)
    } else {
        None
    }
}

pub open spec fn kind_in(line: Seq<char>, up: Seq<char>, k: Seq<char>) -> bool {
    contains(line, k) || contains(up, upper_seq(k))
}

pub open spec fn call_kind(line: Seq<char>, up: Seq<char>) -> Option<Seq<char>> {
    if kind_in(line, up, "Group Call"@) {
        Some("Group Call"@)
    } else if kind_in(line, up, "Private Call"@) {
        Some("Private Call"@)
    } else if kind_in(line, up, "All Call"@) {
        Some("All Call"@)
    } else if kind_in(line, up, "Data Call"@) {
        Some("Data Call"@)
    } else if kind_in(line, up, "Voice Call"@) {
        Some("Voice Call"@)
    } else {
        None
    }
}

pub open spec fn opt_push(s: Seq<(Seq<char>, Seq<char>)>, k: Seq<char>, v: Option<Seq<char>>) -> Seq<(Seq<char>, Seq<char>)> {
    match v {
        Some(x) => s.push((k, x)),
        None => s,
    }
}

/// Protocol extras, in this order: P25 NAC, NXDN RAN, CAN, D-STAR
/// repeaters 1 and 2.
pub open spec fn extras(line: Seq<char>, up: Seq<char>) -> Seq<(Seq<char>, Seq<char>)> {
    let e = opt_push(seq![], "NAC"@, scan_key(up, "NAC"@, 0));
    let e = opt_push(e, "RAN"@, scan_key(up, "RAN"@, 0));
    let e = opt_push(e, "CAN"@, scan_key(up, "CAN"@, 0));
    let e = opt_push(e, "RPT1"@, either(scan_key(line, "RPT1"@, 0), scan_key(line, "RPT 1"@, 0)));
    opt_push(e, "RPT2"@, either(scan_key(line, "RPT2"@, 0), scan_key(line, "RPT 2"@, 0)))
}

/// The call fields of one decoder line. Keys on the upper-cased line:
/// slot, color code, talkgroup, NAC/RAN/CAN; keys on the line as is:
/// source (RID, SRC, Src, MY), destination (DST, UR, Tgt) and repeaters.
pub open spec fn spec_parse_line(line: Seq<char>) -> CallView {
    let up = upper_seq(line);
    CallView {
        slot: slot_of(up),
        cc: either(scan_key(up, "COLOR CODE"@, 0), scan_key(up, "CC"@, 0)),
        tg: either(
            scan_key(up, "TALKGROUP"@, 0),
            either(scan_key(up, "TGT"@, 0), scan_key(up, "TG"@, 0)),
        ),
        src: either(
            scan_key(line, "RID"@, 0),
            either(
                scan_key(line, "SRC"@, 0),
                either(scan_key(line, "Src"@, 0), scan_key(line, "MY"@, 0)),
            ),
        ),
        dst: either(
            scan_key(line, "DST"@, 0),
            either(scan_key(line, "UR"@, 0), scan_key(line, "Tgt"@, 0)),
        ),
        kind: call_kind(line, up),
        extra: extras(line, up),
    }
}

/// The slot a line reports is the number it names (upper-cased): slot 1
/// for `SLOT 1`, `TS1` or `SLOT1`, else slot 2 for `SLOT 2`, `TS2` or
/// `SLOT2`, else none.
pub proof fn lemma_slot_named(line: Seq<char>)
    ensures
        ({
            let up = upper_seq(line);
            let one = contains(up, "SLOT 1"@) || contains(up, "TS1"@) || contains(up, "SLOT1"@);
            let two = contains(up, "SLOT 2"@) || contains(up, "TS2"@) || contains(up, "SLOT2"@);
            &&& one ==> spec_parse_line(line).slot == Some(1u8)
            &&& !one && two ==> spec_parse_line(line).slot == Some(2u8)
            &&& !one && !two ==> spec_parse_line(line).slot is None
        }),
{
}

fn kind_in_of(line: &Vec<char>, up: &Vec<char>, k: &str) -> (b: bool)
    ensures
        b == kind_in(line@, up@, k@),
{
    let kv = chars_of(k);
    let ku = upper_all(&kv);
    contains_str(line, k) || find_at(up, &ku, 0).is_some()
}

fn push_extra(e: &mut Vec<(String, String)>, k: &str, v: Option<Vec<char>>)
    ensures
        pair_views(final(e)@) == opt_push(pair_views(old(e)@), k@, opt_chars(v)),
{
    match v {
        Some(x) => {
            let ghost before = pair_views(e@);
            e.push((String::from_str(k), string_of(&x)));
            assert(pair_views(e@) == before.push((k@, x@)));
        },
        None => {},
    }
}

pub fn parse_line(line: &str) -> (f: CallFields)
    ensures
        f@ == spec_parse_line(line@),
{
    let v = chars_of(line);
    let up = upper_all(&v);
    let slot: Option<u8> = if contains_str(&up, "SLOT 1") || contains_str(&up, "TS1")
        || contains_str(&up, "SLOT1") {
        Some(1)
    } else if contains_str(&up, "SLOT 2") || contains_str(&up, "TS2") || contains_str(
        &up,
        "SLOT2",
    ) {
        Some(2)
    } else {
        None
    };
    let cc = either_of(scan_key_of(&up, "COLOR CODE"), scan_key_of(&up, "CC"));
    let tg = either_of(
        scan_key_of(&up, "TALKGROUP"),
        either_of(scan_key_of(&up, "TGT"), scan_key_of(&up, "TG")),
    );
    let src = either_of(
        scan_key_of(&v, "RID"),
        either_of(
            scan_key_of(&v, "SRC"),
            either_of(scan_key_of(&v, "Src"), scan_key_of(&v, "MY")),
        ),
    );
    let dst = either_of(
        scan_key_of(&v, "DST"),
        either_of(scan_key_of(&v, "UR"), scan_key_of(&v, "Tgt")),
    );
    let kind: Option<String> = if kind_in_of(&v, &up, "Group Call") {
        Some(String::from_str("Group Call"))
    } else if kind_in_of(&v, &up, "Private Call") {
        Some(String::from_str("Private Call"))
    } else if kind_in_of(&v, &up, "All Call") {
        Some(String::from_str("All Call"))
    } else if kind_in_of(&v, &up, "Data Call") {
        Some(String::from_str("Data Call"))
    } else if kind_in_of(&v, &up, "Voice Call") {
        Some(String::from_str("Voice Call"))
    } else {
        None
    };
    let mut extra: Vec<(String, String)> = Vec::new();
    assert(pair_views(extra@) == Seq::<(Seq<char>, Seq<char>)>::empty());
    push_extra(&mut extra, "NAC", scan_key_of(&up, "NAC"));
    push_extra(&mut extra, "RAN", scan_key_of(&up, "RAN"));
    push_extra(&mut extra, "CAN", scan_key_of(&up, "CAN"));
    push_extra(&mut extra, "RPT1", either_of(scan_key_of(&v, "RPT1"), scan_key_of(&v, "RPT 1")));
    push_extra(&mut extra, "RPT2", either_of(scan_key_of(&v, "RPT2"), scan_key_of(&v, "RPT 2")));
    let ghost upv = upper_seq(line@);
    assert(up@ == upv);
    assert(slot == slot_of(upv));
    assert(opt_chars(cc) == spec_parse_line(line@).cc);
    assert(opt_chars(tg) == spec_parse_line(line@).tg);
    assert(opt_chars(src) == spec_parse_line(line@).src);
    assert(opt_chars(dst) == spec_parse_line(line@).dst);
    assert(opt_str(kind) == spec_parse_line(line@).kind);
    assert(pair_views(extra@) == spec_parse_line(line@).extra);
    CallFields {
        slot,
        cc: to_string_opt(cc),
        tg: to_string_opt(tg),
        src: to_string_opt(src),
        dst: to_string_opt(dst),
        kind,
        extra,
    }
}

/// Is this line interesting enough to show in the event history?
pub fn is_event_line(line: &str) -> (b: bool)
    ensures
        b == (spec_parse_line(line@).tg is Some || spec_parse_line(line@).src is Some
            || spec_parse_line(line@).kind is Some),
{
    let f = parse_line(line);
    f.tg.is_some() || f.src.is_some() || f.kind.is_some()
}

} // verus!
