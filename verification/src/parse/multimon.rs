//! multimon-ng output: POCSAG pages and AFSK1200 (APRS) packets.

use vstd::prelude::*;
use crate::text::{
    chars_of, find, find_str, is_control, parse_uint, parse_uint_str, slice, split_char_once,
    split_char_once_of, split_ws_once, split_ws_once_of, starts_with, starts_with_str, string_of,
    strip_prefix, strip_prefix_of, tokens, trim, trim_of, trim_start, trim_start_of, control,
    split_ws, seq_eq, views,
};

verus! {

#[derive(Clone, Debug, PartialEq)]
pub enum PagerContent {
    Alpha(String),
    Numeric(String),
    ToneOnly,
}

#[derive(Clone, Debug, PartialEq)]
pub struct PagerMsg {
    pub baud: u32,
    pub address: String,
    pub function: String,
    pub content: PagerContent,
}

pub enum ContentView {
    Alpha(Seq<char>),
    Numeric(Seq<char>),
    ToneOnly,
}

pub struct PagerView {
    pub baud: u32,
    pub address: Seq<char>,
    pub function: Seq<char>,
    pub content: ContentView,
}

impl View for PagerContent {
    type V = ContentView;

    open spec fn view(&self) -> ContentView {
        match self {
            PagerContent::Alpha(s) => ContentView::Alpha(s@),
            PagerContent::Numeric(s) => ContentView::Numeric(s@),
            PagerContent::ToneOnly => ContentView::ToneOnly,
        }
    }
}

impl View for PagerMsg {
    type V = PagerView;

    open spec fn view(&self) -> PagerView {
        PagerView {
            baud: self.baud,
            address: self.address@,
            function: self.function@,
            content: self.content@,
        }
    }
}

/// Control chars shown as `·`, surrounding whitespace trimmed.
pub open spec fn clean(s: Seq<char>) -> Seq<char> {
    trim(s.map_values(|c: char| if is_control(c) { '·' } else { c }))
}

fn clean_of(s: &Vec<char>) -> (r: Vec<char>)
    ensures
        r@ == clean(s@),
{
    let mut m: Vec<char> = Vec::new();
    let mut i: usize = 0;
    while i < s.len()
        invariant
            i <= s@.len(),
            m@ == s@.take(i as int).map_values(|c: char| if is_control(c) { '·' } else { c }),
        decreases s.len() - i,
    {
        let c = s[i];
        m.push(if control(c) { '·' } else { c });
        assert(s@.take(i + 1).map_values(|c: char| if is_control(c) { '·' } else { c }) == s@.take(
            i as int,
        ).map_values(|c: char| if is_control(c) { '·' } else { c }).push(
            if is_control(c) { '·' } else { c },
        ));
        i += 1;
    }
    assert(s@.take(s@.len() as int) == s@);
    trim_of(&m)
}

/// The content of a page: what follows `Alpha:` or `Numeric:`, or a
/// tone-only page.
pub open spec fn page_content(r: Seq<char>) -> ContentView {
    match find(r, "Alpha:"@) {
        Some(i) => ContentView::Alpha(clean(r.skip(i + 6))),
        None => match find(r, "Numeric:"@) {
            Some(i) => ContentView::Numeric(clean(r.skip(i + 8))),
            None => ContentView::ToneOnly,
        },
    }
}

/// `POCSAG<baud>: Address: <addr>  Function: <f>  Alpha:|Numeric: <text>`,
/// each part after the baud tolerant of missing pieces.
pub open spec fn spec_parse_pocsag(line: Seq<char>) -> Option<PagerView> {
    match strip_prefix(line, "POCSAG"@) {
        None => None,
        Some(r1) => match split_char_once(r1, ':') {
            None => None,
            Some((b, r2)) => match parse_uint(trim(b), 0xffff_ffff) {
                None => None,
                Some(baud) => match strip_prefix(trim_start(r2), "Address:"@) {
                    None => None,
                    Some(r4) => {
                        let (address, r5) = split_ws_once(trim_start(r4));
                        let r6 = trim_start(r5);
                        let (function, r7) = match strip_prefix(r6, "Function:"@) {
                            Some(r) => split_ws_once(trim_start(r)),
                            None => (seq![], r6),
                        };
                        Some(
                            PagerView {
                                baud: baud as u32,
                                address,
                                function,
                                content: page_content(trim_start(r7)),
                            },
                        )
                    },
                },
            },
        },
    }
}

fn page_content_of(r: &Vec<char>) -> (c: PagerContent)
    ensures
        c@ == page_content(r@),
{
    proof {
        reveal_strlit("Alpha:");
        reveal_strlit("Numeric:");
    }
    match find_str(r, "Alpha:") {
        Some(i) => {
            proof {
                crate::text::lemma_find_from_bounds(r@, "Alpha:"@, 0);
            }
            let n = r.len();
            let t = slice(r, i + 6, n);
            assert(t@ == r@.skip(i + 6));
            PagerContent::Alpha(string_of(&clean_of(&t)))
        },
        None => match find_str(r, "Numeric:") {
            Some(i) => {
                proof {
                    crate::text::lemma_find_from_bounds(r@, "Numeric:"@, 0);
                }
                let n = r.len();
                let t = slice(r, i + 8, n);
                assert(t@ == r@.skip(i + 8));
                PagerContent::Numeric(string_of(&clean_of(&t)))
            },
            None => PagerContent::ToneOnly,
        },
    }
}

/// `POCSAG1200: Address: 1234567  Function: 0  Alpha:   hello world`
pub fn parse_pocsag(line: &str) -> (r: Option<PagerMsg>)
    ensures
        r matches Some(m) ==> spec_parse_pocsag(line@) == Some(m@),
        r is None ==> spec_parse_pocsag(line@) is None,
{
    let v = chars_of(line);
    let r1 = match strip_prefix_of(&v, "POCSAG") {
        Some(t) => t,
        None => return None,
    };
    let (b, r2) = match split_char_once_of(&r1, ':') {
        Some(p) => p,
        None => return None,
    };
    let baud = match parse_uint_str(&trim_of(&b), 0xffff_ffff) {
        Some(x) => x as u32,
        None => return None,
    };
    let r4 = match strip_prefix_of(&trim_start_of(&r2), "Address:") {
        Some(t) => t,
        None => return None,
    };
    let (address, r5) = split_ws_once_of(&trim_start_of(&r4));
    let r6 = trim_start_of(&r5);
    let (function, r7) = match strip_prefix_of(&r6, "Function:") {
        Some(r) => split_ws_once_of(&trim_start_of(&r)),
        None => (Vec::new(), r6),
    };
    let content = page_content_of(&trim_start_of(&r7));
    Some(
        PagerMsg {
            baud,
            address: string_of(&address),
            function: string_of(&function),
            content,
        },
    )
}


#[derive(Clone, Debug, PartialEq)]
pub struct AprsMsg {
    pub from: String,
    pub to: String,
    pub path: String,
    pub info: String,
}

pub struct AprsView {
    pub from: Seq<char>,
    pub to: Seq<char>,
    pub path: Seq<char>,
    pub info: Seq<char>,
}

impl View for AprsMsg {
    type V = AprsView;

    open spec fn view(&self) -> AprsView {
        AprsView { from: self.from@, to: self.to@, path: self.path@, info: self.info@ }
    }
}

pub open spec fn opt_aprs(o: Option<AprsMsg>) -> Option<AprsView> {
    match o {
        Some(m) => Some(m@),
        None => None,
    }
}

/// The word following the last `w` that has one.
pub open spec fn follow(toks: Seq<Seq<char>>, w: Seq<char>) -> Seq<char>
    decreases toks.len(),
{
    if toks.len() < 2 {
        seq![]
    } else if toks[toks.len() - 2] == w {
        toks.last()
    } else {
        follow(toks.drop_last(), w)
    }
}

/// The header fields after `AFSK1200: fm `: the first word is the source,
/// then `to <dest>` and `via <path>` anywhere.
pub open spec fn aprs_header(rest: Seq<char>) -> AprsView {
    let toks = tokens(rest);
    AprsView {
        from: if toks.len() > 0 { toks[0] } else { seq![] },
        to: follow(toks, "to"@),
        path: follow(toks, "via"@),
        info: seq![],
    }
}

/// One line through the parser: the header pending afterwards, and the
/// packet completed by this line, if any.
pub open spec fn aprs_step(pending: Option<AprsView>, line: Seq<char>) -> (Option<AprsView>, Option<AprsView>) {
    match strip_prefix(line, "AFSK1200: fm "@) {
        Some(rest) => (Some(aprs_header(rest)), None),
        None => if starts_with(line, "AFSK1200:"@) {
            (pending, None)
        } else {
            match pending {
                Some(m) => if clean(line).len() == 0 {
                    (Some(m), None)
                } else {
                    (None, Some(AprsView { info: clean(line), ..m }))
                },
                None => (None, None),
            }
        },
    }
}

/// AFSK1200 prints a header line, then the payload on the next line:
/// `AFSK1200: fm N0CALL-9 to APDECK-0 via WIDE1-1,WIDE2-2 UI pid=F0`
/// `!4447.40N/02027.60E>deck sim`
pub struct AprsParser {
    pending: Option<AprsMsg>,
}

impl View for AprsParser {
    type V = Option<AprsView>;

    closed spec fn view(&self) -> Option<AprsView> {
        opt_aprs(self.pending)
    }
}

fn word_after(toks: &Vec<Vec<char>>, w: &str) -> (r: Vec<char>)
    ensures
        r@ == follow(views(toks@), w@),
{
    let wv = chars_of(w);
    let ghost tv = views(toks@);
    let mut r: Vec<char> = Vec::new();
    let mut k: usize = 1;
    if toks.len() < 2 {
        return r;
    }
    assert(follow(tv.take(1), w@) == Seq::<char>::empty());
    while k < toks.len()
        invariant
            1 <= k <= toks@.len(),
            tv == views(toks@),
            wv@ == w@,
            r@ == follow(tv.take(k as int), w@),
        decreases toks.len() - k,
    {
        assert(tv.take(k + 1).drop_last() == tv.take(k as int));
        if seq_eq(&toks[k - 1], &wv) {
            r = toks[k].clone();
        }
        k += 1;
    }
    assert(tv.take(toks@.len() as int) == tv);
    r
}

impl AprsParser {
    pub fn new() -> (p: Self)
        ensures
            p@ is None,
    {
        AprsParser { pending: None }
    }

    pub fn push(&mut self, line: &str) -> (r: Option<AprsMsg>)
        ensures
            (final(self)@, opt_aprs(r)) == aprs_step(old(self)@, line@),
    {
        let v = chars_of(line);
        if let Some(rest) = strip_prefix_of(&v, "AFSK1200: fm ") {
            let toks = split_ws(&rest);
            assert(views(toks@) == tokens(rest@));
            let from = if toks.len() > 0 {
                toks[0].clone()
            } else {
                Vec::new()
            };
            let to = word_after(&toks, "to");
            let path = word_after(&toks, "via");
            self.pending = Some(
                AprsMsg {
                    from: string_of(&from),
                    to: string_of(&to),
                    path: string_of(&path),
                    info: String::new(),
                },
            );
            return None;
        }
        if starts_with_str(&v, "AFSK1200:") {
            return None;
        }
        match self.pending.take() {
            Some(msg) => {
                let payload = clean_of(&v);
                if payload.len() == 0 {
                    self.pending = Some(msg);
                    return None;
                }
                Some(AprsMsg { info: string_of(&payload), ..msg })
            },
            None => None,
        }
    }
}

} // verus!
