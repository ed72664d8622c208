//! SDR detection from sysfs USB entries. A "Simulator" device is always
//! present so the whole UI runs offline.

use vstd::prelude::*;
use crate::text::{chars_of, dec_str, string_of, trim};

verus! {

#[derive(Clone, Copy, PartialEq, Eq, Debug, Structural)]
pub enum SdrKind {
    RtlSdr,
    AirspyHf,
    Sim,
}

pub open spec fn spec_kind_key(k: SdrKind) -> &'static str {
    match k {
        SdrKind::RtlSdr => "rtlsdr",
        SdrKind::AirspyHf => "airspyhf",
        SdrKind::Sim => "sim",
    }
}

pub open spec fn spec_kind_label(k: SdrKind) -> &'static str {
    match k {
        SdrKind::RtlSdr => "RTL-SDR",
        SdrKind::AirspyHf => "Airspy HF+",
        SdrKind::Sim => "Simulator",
    }
}

/// Tunable ranges in Hz, inclusive bounds.
pub open spec fn spec_ranges(k: SdrKind) -> Seq<(u64, u64)> {
    match k {
        SdrKind::RtlSdr => seq![(24_000_000u64, 1_766_000_000u64)],
        SdrKind::AirspyHf => seq![(9_000u64, 31_000_000u64), (60_000_000u64, 260_000_000u64)],
        SdrKind::Sim => seq![(0u64, 9_999_999_999u64)],
    }
}

impl SdrKind {
    /// stable key used for pipeline template lookup
    pub fn key(self) -> (s: &'static str)
        ensures
            s == spec_kind_key(self),
    {
        match self {
            SdrKind::RtlSdr => "rtlsdr",
            SdrKind::AirspyHf => "airspyhf",
            SdrKind::Sim => "sim",
        }
    }

    pub fn label(self) -> (s: &'static str)
        ensures
            s == spec_kind_label(self),
    {
        match self {
            SdrKind::RtlSdr => "RTL-SDR",
            SdrKind::AirspyHf => "Airspy HF+",
            SdrKind::Sim => "Simulator",
        }
    }

    /// Tunable ranges in Hz (inclusive).
    pub fn ranges(self) -> (r: Vec<(u64, u64)>)
        ensures
            r@ == spec_ranges(self),
    {
        let mut v: Vec<(u64, u64)> = Vec::new();
        match self {
            SdrKind::RtlSdr => {
                v.push((24_000_000, 1_766_000_000));
            },
            SdrKind::AirspyHf => {
                v.push((9_000, 31_000_000));
                v.push((60_000_000, 260_000_000));
            },
            SdrKind::Sim => {
                v.push((0, 9_999_999_999));
            },
        }
        v
    }
}

/// USB VID:PID → kind table. Extend here to teach deck new radios.
pub open spec fn spec_usb_kind(vid: u16, pid: u16) -> Option<SdrKind> {
    if vid == 0x0bda && pid == 0x2832 {
        Some(SdrKind::RtlSdr)
    } else if vid == 0x0bda && pid == 0x2838 {
        Some(SdrKind::RtlSdr)
    } else if vid == 0x03eb && pid == 0x800c {
        // Airspy HF+ / HF+ Discovery
        Some(SdrKind::AirspyHf)
    } else {
        None
    }
}

pub fn usb_kind(vid: u16, pid: u16) -> (r: Option<SdrKind>)
    ensures
        r == spec_usb_kind(vid, pid),
{
    if vid == 0x0bda && pid == 0x2832 {
        Some(SdrKind::RtlSdr)
    } else if vid == 0x0bda && pid == 0x2838 {
        Some(SdrKind::RtlSdr)
    } else if vid == 0x03eb && pid == 0x800c {
        Some(SdrKind::AirspyHf)
    } else {
        None
    }
}

#[derive(Clone, Debug)]
pub struct SdrDevice {
    pub kind: SdrKind,
    /// index among devices of the same kind (what rtl_* -d expects)
    pub index: u32,
    pub product: String,
    pub serial: Option<String>,
    pub usb_path: String,
}

pub open spec fn in_ranges(rs: Seq<(u64, u64)>, hz: u64) -> bool {
    exists|i: int| 0 <= i < rs.len() && rs[i].0 <= hz && hz <= rs[i].1
}

pub open spec fn spec_stable_id(d: SdrDevice) -> Seq<char> {
    match d.kind {
        SdrKind::Sim => "sim"@,
        k => spec_kind_key(k)@ + seq![':'] + dec_str(d.index as nat),
    }
}

impl SdrDevice {
    pub fn sim() -> (d: Self)
        ensures
            d.kind == SdrKind::Sim,
            d.index == 0,
            d.product@ == "Built-in signal simulator"@,
            d.serial is None,
            d.usb_path@ == Seq::<char>::empty(),
    {
        Self {
            kind: SdrKind::Sim,
            index: 0,
            product: String::from_str("Built-in signal simulator"),
            serial: None,
            usb_path: String::new(),
        }
    }

    /// "rtlsdr:0", "sim" — stable id persisted in state.toml
    pub fn stable_id(&self) -> (s: String)
        ensures
            s@ == spec_stable_id(*self),
    {
        match self.kind {
            SdrKind::Sim => String::from_str("sim"),
            k => {
                let mut v = chars_of(k.key());
                v.push(':');
                let d = crate::text::dec_chars(self.index as u64);
                crate::text::push_all(&mut v, &d);
                string_of(&v)
            },
        }
    }

    pub fn freq_ok(&self, hz: u64) -> (ok: bool)
        ensures
            ok == in_ranges(spec_ranges(self.kind), hz),
    {
        let rs = self.kind.ranges();
        let mut i: usize = 0;
        while i < rs.len()
            invariant
                i <= rs@.len(),
                rs@ == spec_ranges(self.kind),
                forall|j: int| 0 <= j < i ==> !(rs@[j].0 <= hz && hz <= rs@[j].1),
            decreases rs.len() - i,
        {
            if rs[i].0 <= hz && hz <= rs[i].1 {
                return true;
            }
            i += 1;
        }
        false
    }
}

// ------------------------------------------------------------ sysfs scan

/// One entry of the sysfs USB devices dir, as read: the dir name and the
/// raw contents of the attribute files that could be read.
#[derive(Clone, Debug)]
pub struct UsbEntry {
    pub name: String,
    pub id_vendor: Option<String>,
    pub id_product: Option<String>,
    pub product: Option<String>,
    pub serial: Option<String>,
}

pub open spec fn hex_val(c: char) -> Option<nat> {
    if '0' <= c && c <= '9' {
        Some(((c as u32) - 48) as nat)
    } else if 'a' <= c && c <= 'f' {
        Some(((c as u32) - 87) as nat)
    } else if 'A' <= c && c <= 'F' {
        Some(((c as u32) - 55) as nat)
    } else {
        None
    }
}

pub open spec fn all_hex(s: Seq<char>) -> bool {
    forall|i: int| 0 <= i < s.len() ==> (#[trigger] hex_val(s[i])) is Some
}

pub open spec fn hex_num(s: Seq<char>) -> nat
    decreases s.len(),
{
    if s.len() == 0 {
        0
    } else {
        hex_num(s.drop_last()) * 16 + hex_val(s.last()).unwrap()
    }
}

/// `u16::from_str_radix(s, 16)`: optional `+`, one or more hex digits,
/// value within range.
pub open spec fn parse_hex16(s: Seq<char>) -> Option<u16> {
    let d = if s.len() > 0 && s[0] == '+' { s.skip(1) } else { s };
    if d.len() > 0 && all_hex(d) && hex_num(d) <= 0xFFFF {
        Some(hex_num(d) as u16)
    } else {
        None
    }
}

proof fn lemma_hex_prefix(s: Seq<char>, i: int)
    requires
        0 <= i <= s.len(),
        all_hex(s),
    ensures
        hex_num(s.take(i)) <= hex_num(s),
    decreases s.len() - i,
{
    if i < s.len() {
        lemma_hex_prefix(s, i + 1);
        assert(s.take(i + 1).drop_last() == s.take(i));
    } else {
        assert(s.take(i) == s);
    }
}

fn hex_digit(c: char) -> (r: Option<u32>)
    ensures
        r matches Some(v) ==> hex_val(c) == Some(v as nat),
        r is None ==> hex_val(c) is None,
{
    if c >= '0' && c <= '9' {
        Some(c as u32 - 48)
    } else if c >= 'a' && c <= 'f' {
        Some(c as u32 - 87)
    } else if c >= 'A' && c <= 'F' {
        Some(c as u32 - 55)
    } else {
        None
    }
}

pub fn parse_hex_u16(s: &Vec<char>) -> (r: Option<u16>)
    ensures
        r == parse_hex16(s@),
{
    let start: usize = if s.len() > 0 && s[0] == '+' {
        1
    } else {
        0
    };
    let ghost d = if s@.len() > 0 && s@[0] == '+' {
        s@.skip(1)
    } else {
        s@
    };
    assert(d == s@.subrange(start as int, s@.len() as int));
    assert(parse_hex16(s@) == (if d.len() > 0 && all_hex(d) && hex_num(d) <= 0xFFFF {
        Some(hex_num(d) as u16)
    } else {
        None
    }));
    if start >= s.len() {
        return None;
    }
    let mut v: u32 = 0;
    let mut i: usize = start;
    while i < s.len()
        invariant
            start <= i <= s@.len(),
            d == s@.subrange(start as int, s@.len() as int),
            parse_hex16(s@) == (if d.len() > 0 && all_hex(d) && hex_num(d) <= 0xFFFF {
                Some(hex_num(d) as u16)
            } else {
                None
            }),
            all_hex(d.take(i - start)),
            v == hex_num(d.take(i - start)),
            v <= 0xFFFF,
        decreases s.len() - i,
    {
        assert(d.take(i - start + 1).drop_last() == d.take(i - start));
        assert(d.take(i - start + 1).last() == s@[i as int]);
        match hex_digit(s[i]) {
            None => {
                assert(d[i - start] == s@[i as int]);
                assert(hex_val(d[i - start]) is None);
                assert(!all_hex(d));
                assert(parse_hex16(s@) is None);
                return None;
            },
            Some(h) => {
                assert(all_hex(d.take(i - start + 1)));
                let nv = v * 16 + h;
                assert(hex_num(d.take(i - start + 1)) == nv);
                if nv > 0xFFFF {
                    proof {
                        if all_hex(d) {
                            lemma_hex_prefix(d, i - start + 1);
                        }
                    }
                    return None;
                }
                v = nv;
            },
        }
        i += 1;
    }
    assert(d.take(s@.len() - start) == d);
    Some(v as u16)
}

/// A recognised radio before indexing: dir name, kind, product, serial.
pub struct Found {
    pub path: Seq<char>,
    pub kind: SdrKind,
    pub product: Seq<char>,
    pub serial: Option<Seq<char>>,
}

pub open spec fn opt_trim(o: Option<String>) -> Option<Seq<char>> {
    match o {
        Some(s) => Some(trim(s@)),
        None => None,
    }
}

/// The recognised radios among the entries, in directory order.
pub open spec fn recognised(es: Seq<UsbEntry>) -> Seq<Found>
    decreases es.len(),
{
    if es.len() == 0 {
        seq![]
    } else {
        let e = es.last();
        let rest = recognised(es.drop_last());
        match (opt_trim(e.id_vendor), opt_trim(e.id_product)) {
            (Some(v), Some(p)) => match (parse_hex16(v), parse_hex16(p)) {
                (Some(vid), Some(pid)) => match spec_usb_kind(vid, pid) {
                    Some(kind) => rest.push(
                        Found {
                            path: e.name@,
                            kind,
                            product: match opt_trim(e.product) {
                                Some(pr) => pr,
                                None => spec_kind_label(kind)@,
                            },
                            serial: opt_trim(e.serial),
                        },
                    ),
                    None => rest,
                },
                _ => rest,
            },
            _ => rest,
        }
    }
}

/// Lexicographic `<=` on code points (the order of `str`'s `Ord`).
pub open spec fn lex_le(a: Seq<char>, b: Seq<char>) -> bool
    decreases a.len(),
{
    if a.len() == 0 {
        true
    } else if b.len() == 0 {
        false
    } else if a[0] != b[0] {
        (a[0] as u32) < (b[0] as u32)
    } else {
        lex_le(a.drop_first(), b.drop_first())
    }
}

/// Stable insertion of `x` after every entry whose path is `<=` its path.
pub open spec fn insert_sorted(s: Seq<Found>, x: Found) -> Seq<Found>
    decreases s.len(),
{
    if s.len() == 0 {
        seq![x]
    } else if lex_le(s.last().path, x.path) {
        s.push(x)
    } else {
        insert_sorted(s.drop_last(), x).push(s.last())
    }
}

/// Stable sort by path (what a stable `sort_by` on the dir names yields).
pub open spec fn sort_by_path(s: Seq<Found>) -> Seq<Found>
    decreases s.len(),
{
    if s.len() == 0 {
        seq![]
    } else {
        insert_sorted(sort_by_path(s.drop_last()), s.last())
    }
}

/// Devices of kind `k` among the first entries.
pub open spec fn count_kind(s: Seq<Found>, k: SdrKind) -> nat
    decreases s.len(),
{
    if s.len() == 0 {
        0
    } else {
        count_kind(s.drop_last(), k) + if s.last().kind == k { 1nat } else { 0nat }
    }
}

/// Indexing: each device gets the number of same-kind devices before it.
pub open spec fn device_matches(d: SdrDevice, f: Found, index: nat) -> bool {
    &&& d.kind == f.kind
    &&& d.index == index
    &&& d.product@ == f.product
    &&& d.usb_path@ == f.path
    &&& match (d.serial, f.serial) {
        (Some(a), Some(b)) => a@ == b,
        (None, None) => true,
        _ => false,
    }
}

pub open spec fn is_sim(d: SdrDevice) -> bool {
    &&& d.kind == SdrKind::Sim
    &&& d.index == 0
    &&& d.product@ == "Built-in signal simulator"@
    &&& d.serial is None
    &&& d.usb_path@ == Seq::<char>::empty()
}

/// The scan result for the entries: sorted, indexed radios, then the sim.
pub open spec fn detected(es: Seq<UsbEntry>, out: Seq<SdrDevice>) -> bool {
    let sorted = sort_by_path(recognised(es));
    &&& out.len() == sorted.len() + 1
    &&& forall|i: int|
        0 <= i < sorted.len() ==> device_matches(
            #[trigger] out[i],
            sorted[i],
            count_kind(sorted.take(i), sorted[i].kind),
        )
    &&& is_sim(out.last())
}

fn opt_trim_of(o: &Option<String>) -> (r: Option<Vec<char>>)
    ensures
        r matches Some(v) ==> opt_trim(*o) == Some(v@),
        r is None ==> opt_trim(*o) is None,
{
    match o {
        Some(s) => {
            let cs = chars_of(s.as_str());
            Some(crate::text::trim_of(&cs))
        },
        None => None,
    }
}

struct FoundRow {
    path: Vec<char>,
    kind: SdrKind,
    product: Vec<char>,
    serial: Option<Vec<char>>,
}

spec fn row_view(r: FoundRow) -> Found {
    Found {
        path: r.path@,
        kind: r.kind,
        product: r.product@,
        serial: match r.serial {
            Some(s) => Some(s@),
            None => None,
        },
    }
}

spec fn rows_view(rs: Seq<FoundRow>) -> Seq<Found> {
    rs.map_values(|r: FoundRow| row_view(r))
}

fn copy_chars(v: &Vec<char>) -> (r: Vec<char>)
    ensures
        r@ == v@,
{
    let r = crate::text::slice(v, 0, v.len());
    assert(v@.subrange(0, v@.len() as int) == v@);
    r
}

fn lex_le_exec(a: &Vec<char>, b: &Vec<char>) -> (r: bool)
    ensures
        r == lex_le(a@, b@),
{
    let mut i: usize = 0;
    assert(a@.skip(0) == a@);
    assert(b@.skip(0) == b@);
    while i < a.len()
        invariant
            i <= a@.len(),
            i <= b@.len(),
            a@.take(i as int) == b@.take(i as int),
            lex_le(a@, b@) == lex_le(a@.skip(i as int), b@.skip(i as int)),
        decreases a.len() - i,
    {
        if i >= b.len() {
            return false;
        }
        if a[i] != b[i] {
            return (a[i] as u32) < (b[i] as u32);
        }
        assert(a@.skip(i as int).drop_first() == a@.skip(i + 1));
        assert(b@.skip(i as int).drop_first() == b@.skip(i + 1));
        assert(a@.take(i + 1) == a@.take(i as int).push(a@[i as int]));
        assert(b@.take(i + 1) == b@.take(i as int).push(b@[i as int]));
        i += 1;
    }
    true
}

fn insert_row(v: &mut Vec<FoundRow>, x: FoundRow)
    ensures
        rows_view(final(v)@) == insert_sorted(rows_view(old(v)@), row_view(x)),
        final(v)@.len() == old(v)@.len() + 1,
    decreases old(v)@.len(),
{
    if v.len() == 0 {
        v.push(x);
        assert(rows_view(v@) == seq![row_view(x)]);
        return;
    }
    let last_le = lex_le_exec(&v[v.len() - 1].path, &x.path);
    let ghost before = v@;
    assert(rows_view(before).last() == row_view(before.last()));
    assert(rows_view(before).drop_last() == rows_view(before.drop_last()));
    if last_le {
        v.push(x);
        assert(rows_view(v@) == rows_view(before).push(row_view(x)));
    } else {
        let last = v.pop().unwrap();
        insert_row(v, x);
        let ghost mid = v@;
        v.push(last);
        assert(rows_view(v@) == rows_view(mid).push(row_view(last)));
    }
}

/// Scan result for a sysfs USB devices dir: recognised radios in path
/// order (≈ librtlsdr enumeration order), indexed per kind, then the sim.
pub fn detect_from(entries: &Vec<UsbEntry>) -> (out: Vec<SdrDevice>)
    requires
        entries@.len() <= u32::MAX,
    ensures
        detected(entries@, out@),
{
    // recognise
    let mut found: Vec<FoundRow> = Vec::new();
    let mut i: usize = 0;
    while i < entries.len()
        invariant
            i <= entries@.len(),
            rows_view(found@) == recognised(entries@.take(i as int)),
            found@.len() <= i,
        decreases entries.len() - i,
    {
        let e = &entries[i];
        assert(entries@.take(i + 1).drop_last() == entries@.take(i as int));
        assert(entries@.take(i + 1).last() == *e);
        let v = opt_trim_of(&e.id_vendor);
        let p = opt_trim_of(&e.id_product);
        if let (Some(v), Some(p)) = (v, p) {
            if let (Some(vid), Some(pid)) = (parse_hex_u16(&v), parse_hex_u16(&p)) {
                if let Some(kind) = usb_kind(vid, pid) {
                    let product = match opt_trim_of(&e.product) {
                        Some(pr) => pr,
                        None => chars_of(kind.label()),
                    };
                    let serial = opt_trim_of(&e.serial);
                    let row = FoundRow { path: chars_of(e.name.as_str()), kind, product, serial };
                    let ghost before = found@;
                    found.push(row);
                    assert(rows_view(found@) == rows_view(before).push(row_view(row)));
                }
            }
        }
        i += 1;
    }
    assert(entries@.take(entries@.len() as int) == entries@);
    // stable sort by path
    let mut sorted: Vec<FoundRow> = Vec::new();
    let ghost all = rows_view(found@);
    let mut taken: usize = 0;
    while taken < found.len()
        invariant
            taken <= found@.len(),
            all == rows_view(found@),
            rows_view(sorted@) == sort_by_path(all.take(taken as int)),
            sorted@.len() == taken,
            found@.len() <= u32::MAX,
        decreases found.len() - taken,
    {
        let r = &found[taken];
        let row = FoundRow {
            path: copy_chars(&r.path),
            kind: r.kind,
            product: copy_chars(&r.product),
            serial: match &r.serial {
                Some(s) => Some(copy_chars(s)),
                None => None,
            },
        };
        assert(row_view(row) == all[taken as int]);
        assert(all.take(taken + 1).drop_last() == all.take(taken as int));
        insert_row(&mut sorted, row);
        taken += 1;
    }
    let ghost total = found@.len();
    assert(all.take(total as int) == all);
    let ghost srt = sort_by_path(all);
    // index per kind
    let mut out: Vec<SdrDevice> = Vec::new();
    let mut n_rtl: u32 = 0;
    let mut n_air: u32 = 0;
    let mut n_sim: u32 = 0;
    let mut j: usize = 0;
    while j < sorted.len()
        invariant
            j <= sorted@.len(),
            rows_view(sorted@) == srt,
            out@.len() == j,
            n_rtl == count_kind(srt.take(j as int), SdrKind::RtlSdr),
            n_air == count_kind(srt.take(j as int), SdrKind::AirspyHf),
            n_sim == count_kind(srt.take(j as int), SdrKind::Sim),
            n_rtl <= j && n_air <= j && n_sim <= j,
            sorted@.len() <= u32::MAX,
            forall|k: int|
                0 <= k < j ==> device_matches(
                    #[trigger] out@[k],
                    srt[k],
                    count_kind(srt.take(k), srt[k].kind),
                ),
        decreases sorted.len() - j,
    {
        let r = &sorted[j];
        assert(srt[j as int] == row_view(*r));
        assert(srt.take(j + 1).drop_last() == srt.take(j as int));
        let idx = match r.kind {
            SdrKind::RtlSdr => n_rtl,
            SdrKind::AirspyHf => n_air,
            SdrKind::Sim => n_sim,
        };
        let serial = match &r.serial {
            Some(s) => Some(string_of(s)),
            None => None,
        };
        out.push(SdrDevice {
            kind: r.kind,
            index: idx,
            product: string_of(&r.product),
            serial,
            usb_path: string_of(&r.path),
        });
        match r.kind {
            SdrKind::RtlSdr => {
                n_rtl += 1;
            },
            SdrKind::AirspyHf => {
                n_air += 1;
            },
            SdrKind::Sim => {
                n_sim += 1;
            },
        }
        j += 1;
    }
    out.push(SdrDevice::sim());
    out
}

} // verus!
