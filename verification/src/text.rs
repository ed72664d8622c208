//! Character-level text toolkit shared by the parsers and formatters.
//!
//! Everything works on `Seq<char>` in specifications and `Vec<char>` in
//! executable code; `&str` inputs are taken apart with [`chars_of`] and
//! results are put back together with [`string_of`].

use vstd::prelude::*;

verus! {

// ------------------------------------------------------------------ chars

pub open spec fn is_digit(c: char) -> bool {
    '0' <= c && c <= '9'
}

pub open spec fn digit_val(c: char) -> nat {
    ((c as u32) - 48) as nat
}

pub open spec fn digit_char(d: nat) -> char {
    (d + 48) as char
}

pub open spec fn is_upper(c: char) -> bool {
    'A' <= c && c <= 'Z'
}

pub open spec fn is_lower(c: char) -> bool {
    'a' <= c && c <= 'z'
}

pub open spec fn is_alpha(c: char) -> bool {
    is_upper(c) || is_lower(c)
}

pub open spec fn is_alnum(c: char) -> bool {
    is_alpha(c) || is_digit(c)
}

/// ASCII upper-casing of one char (other chars unchanged).
pub open spec fn upper(c: char) -> char {
    if is_lower(c) {
        ((c as u32) - 32) as char
    } else {
        c
    }
}

/// ASCII lower-casing of one char (other chars unchanged).
pub open spec fn lower(c: char) -> char {
    if is_upper(c) {
        ((c as u32) + 32) as char
    } else {
        c
    }
}

pub open spec fn upper_seq(s: Seq<char>) -> Seq<char> {
    s.map_values(|c: char| upper(c))
}

pub open spec fn lower_seq(s: Seq<char>) -> Seq<char> {
    s.map_values(|c: char| lower(c))
}

/// Unicode `White_Space` (what `char::is_whitespace` tests).
pub open spec fn is_ws(c: char) -> bool {
    let u = c as u32;
    ||| 9 <= u <= 13
    ||| u == 32
    ||| u == 0x85
    ||| u == 0xA0
    ||| u == 0x1680
    ||| 0x2000 <= u <= 0x200A
    ||| u == 0x2028
    ||| u == 0x2029
    ||| u == 0x202F
    ||| u == 0x205F
    ||| u == 0x3000
}

/// Unicode general category `Cc` (what `char::is_control` tests).
pub open spec fn is_control(c: char) -> bool {
    let u = c as u32;
    u <= 0x1F || (0x7F <= u && u <= 0x9F)
}

pub fn digit(c: char) -> (b: bool)
    ensures
        b == is_digit(c),
{
    c >= '0' && c <= '9'
}

pub fn alpha(c: char) -> (b: bool)
    ensures
        b == is_alpha(c),
{
    (c >= 'A' && c <= 'Z') || (c >= 'a' && c <= 'z')
}

pub fn alnum(c: char) -> (b: bool)
    ensures
        b == is_alnum(c),
{
    alpha(c) || digit(c)
}

pub fn to_upper(c: char) -> (r: char)
    ensures
        r == upper(c),
{
    if c >= 'a' && c <= 'z' {
        ((c as u8) - 32) as char
    } else {
        c
    }
}

pub fn to_lower(c: char) -> (r: char)
    ensures
        r == lower(c),
{
    if c >= 'A' && c <= 'Z' {
        ((c as u8) + 32) as char
    } else {
        c
    }
}

pub fn whitespace(c: char) -> (b: bool)
    ensures
        b == is_ws(c),
{
    let u = c as u32;
    (9 <= u && u <= 13) || u == 32 || u == 0x85 || u == 0xA0 || u == 0x1680 || (0x2000 <= u && u
        <= 0x200A) || u == 0x2028 || u == 0x2029 || u == 0x202F || u == 0x205F || u == 0x3000
}

pub fn control(c: char) -> (b: bool)
    ensures
        b == is_control(c),
{
    let u = c as u32;
    u <= 0x1F || (0x7F <= u && u <= 0x9F)
}

/// The decimal digit `d` as a char.
pub fn digit_of(d: u64) -> (c: char)
    requires
        d < 10,
    ensures
        c == digit_char(d as nat),
        is_digit(c),
        digit_val(c) == d,
{
    ((d as u8) + 48) as char
}

// -------------------------------------------------------------- &str glue

/// The chars of a string slice.
pub fn chars_of(s: &str) -> (v: Vec<char>)
    ensures
        v@ == s@,
{
    let mut v: Vec<char> = Vec::new();
    for c in it: s.chars()
        invariant
            v@ == it.seq().take(it.index() as int),
    {
        v.push(c);
    }
    v
}

/// Collects chars into a `String` (`String: FromIterator<char>`).
#[verifier::external_body]
pub fn string_of(v: &Vec<char>) -> (s: String)
    ensures
        s@ == v@,
{
    v.iter().collect()
}

/// A copy of `s[a..b]`.
pub fn slice(s: &Vec<char>, a: usize, b: usize) -> (r: Vec<char>)
    requires
        a <= b <= s@.len(),
    ensures
        r@ == s@.subrange(a as int, b as int),
{
    let mut r: Vec<char> = Vec::new();
    let mut i: usize = a;
    while i < b
        invariant
            a <= i <= b <= s@.len(),
            r@ == s@.subrange(a as int, i as int),
        decreases b - i,
    {
        r.push(s[i]);
        i += 1;
    }
    r
}

/// Appends all of `t` to `out`.
pub fn push_all(out: &mut Vec<char>, t: &Vec<char>)
    ensures
        final(out)@ == old(out)@ + t@,
{
    let mut i: usize = 0;
    while i < t.len()
        invariant
            i <= t@.len(),
            out@ == old(out)@ + t@.take(i as int),
        decreases t.len() - i,
    {
        out.push(t[i]);
        i += 1;
    }
}

/// Appends the chars of a string slice to `out`.
pub fn push_str(out: &mut Vec<char>, t: &str)
    ensures
        final(out)@ == old(out)@ + t@,
{
    let v = chars_of(t);
    push_all(out, &v);
}

pub fn seq_eq(a: &Vec<char>, b: &Vec<char>) -> (r: bool)
    ensures
        r == (a@ == b@),
{
    if a.len() != b.len() {
        return false;
    }
    let mut i: usize = 0;
    while i < a.len()
        invariant
            a@.len() == b@.len(),
            i <= a@.len(),
            a@.take(i as int) == b@.take(i as int),
        decreases a.len() - i,
    {
        if a[i] != b[i] {
            assert(a@[i as int] != b@[i as int]);
            return false;
        }
        assert(a@.take(i + 1) == a@.take(i as int).push(a@[i as int]));
        assert(b@.take(i + 1) == b@.take(i as int).push(b@[i as int]));
        i += 1;
    }
    assert(a@ == a@.take(a@.len() as int));
    assert(b@ == b@.take(b@.len() as int));
    true
}

pub fn upper_all(s: &Vec<char>) -> (r: Vec<char>)
    ensures
        r@ == upper_seq(s@),
{
    let mut r: Vec<char> = Vec::new();
    let mut i: usize = 0;
    while i < s.len()
        invariant
            i <= s@.len(),
            r@ == upper_seq(s@.take(i as int)),
        decreases s.len() - i,
    {
        r.push(to_upper(s[i]));
        assert(upper_seq(s@.take(i + 1)) == upper_seq(s@.take(i as int)).push(upper(s@[i as int])));
        i += 1;
    }
    assert(s@.take(s@.len() as int) == s@);
    r
}

pub fn lower_all(s: &Vec<char>) -> (r: Vec<char>)
    ensures
        r@ == lower_seq(s@),
{
    let mut r: Vec<char> = Vec::new();
    let mut i: usize = 0;
    while i < s.len()
        invariant
            i <= s@.len(),
            r@ == lower_seq(s@.take(i as int)),
        decreases s.len() - i,
    {
        r.push(to_lower(s[i]));
        assert(lower_seq(s@.take(i + 1)) == lower_seq(s@.take(i as int)).push(lower(s@[i as int])));
        i += 1;
    }
    assert(s@.take(s@.len() as int) == s@);
    r
}

// --------------------------------------------------------------- searching

/// `p` occurs in `s` at position `i`.
pub open spec fn matches_at(s: Seq<char>, p: Seq<char>, i: int) -> bool {
    0 <= i && i + p.len() <= s.len() && s.subrange(i, i + p.len()) == p
}

/// First position `>= i` where `p` occurs in `s`.
pub open spec fn find_from(s: Seq<char>, p: Seq<char>, i: int) -> Option<int>
    decreases s.len() + 1 - i,
{
    if i < 0 || i > s.len() || i + p.len() > s.len() {
        None
    } else if matches_at(s, p, i) {
        Some(i)
    } else {
        find_from(s, p, i + 1)
    }
}

pub open spec fn find(s: Seq<char>, p: Seq<char>) -> Option<int> {
    find_from(s, p, 0)
}

pub open spec fn contains(s: Seq<char>, p: Seq<char>) -> bool {
    find(s, p) is Some
}

pub open spec fn starts_with(s: Seq<char>, p: Seq<char>) -> bool {
    matches_at(s, p, 0)
}

pub proof fn lemma_find_from_bounds(s: Seq<char>, p: Seq<char>, i: int)
    requires
        0 <= i,
    ensures
        find_from(s, p, i) matches Some(k) ==> i <= k && matches_at(s, p, k),
        find_from(s, p, i) matches Some(k) ==> forall|j: int|
            i <= j < k ==> !#[trigger] matches_at(s, p, j),
        find_from(s, p, i) is None ==> forall|j: int| i <= j ==> !#[trigger] matches_at(s, p, j),
    decreases s.len() + 1 - i,
{
    if i < 0 || i + p.len() > s.len() {
        if i >= 0 {
            assert forall|j: int| i <= j implies !#[trigger] matches_at(s, p, j) by {}
        }
    } else if matches_at(s, p, i) {
    } else {
        assert(p.len() > 0) by {
            if p.len() == 0 {
                assert(s.subrange(i, i) =~= p);
            }
        }
        lemma_find_from_bounds(s, p, i + 1);
    }
}

/// Does `p` occur in `s` at `i`?
pub fn match_at(s: &Vec<char>, p: &Vec<char>, i: usize) -> (r: bool)
    ensures
        r == matches_at(s@, p@, i as int),
{
    if i > s.len() || p.len() > s.len() - i {
        return false;
    }
    let mut k: usize = 0;
    while k < p.len()
        invariant
            i + p@.len() <= s@.len(),
            s@.len() == s.len(),
            k <= p@.len(),
            s@.subrange(i as int, i + k) == p@.take(k as int),
        decreases p.len() - k,
    {
        if s[i + k] != p[k] {
            assert(s@.subrange(i as int, i + p@.len())[k as int] != p@[k as int]);
            return false;
        }
        assert(s@.subrange(i as int, i + k + 1) == s@.subrange(i as int, i + k).push(s@[i + k]));
        assert(p@.take(k + 1) == p@.take(k as int).push(p@[k as int]));
        k += 1;
    }
    assert(p@.take(p@.len() as int) == p@);
    true
}

/// First occurrence of `p` in `s` at or after `start`.
pub fn find_at(s: &Vec<char>, p: &Vec<char>, start: usize) -> (r: Option<usize>)
    ensures
        r matches Some(k) ==> find_from(s@, p@, start as int) == Some(k as int),
        r is None ==> find_from(s@, p@, start as int) is None,
{
    let mut i: usize = start;
    while i <= s.len() && p.len() <= s.len() - i
        invariant
            start <= i,
            find_from(s@, p@, start as int) == find_from(s@, p@, i as int),
        decreases s.len() + 1 - i,
    {
        if match_at(s, p, i) {
            return Some(i);
        }
        if i >= s.len() {
            assert(find_from(s@, p@, i + 1) is None);
            return None;
        }
        i += 1;
    }
    None
}

pub fn find_str(s: &Vec<char>, p: &str) -> (r: Option<usize>)
    ensures
        r matches Some(k) ==> find(s@, p@) == Some(k as int),
        r is None ==> find(s@, p@) is None,
{
    let pv = chars_of(p);
    find_at(s, &pv, 0)
}

pub fn contains_str(s: &Vec<char>, p: &str) -> (r: bool)
    ensures
        r == contains(s@, p@),
{
    find_str(s, p).is_some()
}

pub fn starts_with_str(s: &Vec<char>, p: &str) -> (r: bool)
    ensures
        r == starts_with(s@, p@),
{
    let pv = chars_of(p);
    match_at(s, &pv, 0)
}

/// Position of the first char `c` in `s` at or after `start`.
pub open spec fn find_char_from(s: Seq<char>, c: char, i: int) -> int
    decreases s.len() - i,
{
    if i < 0 || i >= s.len() {
        s.len() as int
    } else if s[i] == c {
        i
    } else {
        find_char_from(s, c, i + 1)
    }
}

pub proof fn lemma_find_char_from(s: Seq<char>, c: char, i: int)
    requires
        0 <= i,
    ensures
        i <= find_char_from(s, c, i) <= s.len() || (i > s.len() && find_char_from(s, c, i)
            == s.len()),
        find_char_from(s, c, i) < s.len() ==> s[find_char_from(s, c, i)] == c,
        forall|j: int| i <= j < find_char_from(s, c, i) ==> s[j] != c,
    decreases s.len() - i,
{
    if i < s.len() && s[i] != c {
        lemma_find_char_from(s, c, i + 1);
    }
}

pub fn find_char(s: &Vec<char>, c: char, start: usize) -> (r: usize)
    ensures
        r == find_char_from(s@, c, start as int),
{
    let mut i: usize = start;
    if i >= s.len() {
        return s.len();
    }
    while i < s.len()
        invariant
            start <= i <= s@.len(),
            find_char_from(s@, c, start as int) == find_char_from(s@, c, i as int),
        decreases s.len() - i,
    {
        if s[i] == c {
            return i;
        }
        i += 1;
    }
    i
}

// ------------------------------------------------------------- whitespace

/// First index `>= i` that is not whitespace (or the length).
pub open spec fn skip_ws(s: Seq<char>, i: int) -> int
    decreases s.len() - i,
{
    if i < 0 || i >= s.len() {
        i
    } else if is_ws(s[i]) {
        skip_ws(s, i + 1)
    } else {
        i
    }
}

/// First index `>= i` that is whitespace (or the length).
pub open spec fn skip_word(s: Seq<char>, i: int) -> int
    decreases s.len() - i,
{
    if i < 0 || i >= s.len() {
        i
    } else if !is_ws(s[i]) {
        skip_word(s, i + 1)
    } else {
        i
    }
}

/// Index one past the last non-whitespace char before `j`.
pub open spec fn back_ws(s: Seq<char>, j: int) -> int
    decreases j,
{
    if j <= 0 || j > s.len() {
        if j > s.len() { s.len() as int } else { 0 }
    } else if is_ws(s[j - 1]) {
        back_ws(s, j - 1)
    } else {
        j
    }
}

pub open spec fn trim_start(s: Seq<char>) -> Seq<char> {
    s.skip(skip_ws(s, 0))
}

pub open spec fn trim_end(s: Seq<char>) -> Seq<char> {
    s.take(back_ws(s, s.len() as int))
}

pub open spec fn trim(s: Seq<char>) -> Seq<char> {
    trim_end(trim_start(s))
}

pub proof fn lemma_skip_ws(s: Seq<char>, i: int)
    requires
        0 <= i <= s.len(),
    ensures
        i <= skip_ws(s, i) <= s.len(),
        skip_ws(s, i) < s.len() ==> !is_ws(s[skip_ws(s, i)]),
        forall|j: int| i <= j < skip_ws(s, i) ==> is_ws(#[trigger] s[j]),
    decreases s.len() - i,
{
    if i < s.len() && is_ws(s[i]) {
        lemma_skip_ws(s, i + 1);
    }
}

pub proof fn lemma_skip_word(s: Seq<char>, i: int)
    requires
        0 <= i <= s.len(),
    ensures
        i <= skip_word(s, i) <= s.len(),
        skip_word(s, i) < s.len() ==> is_ws(s[skip_word(s, i)]),
        forall|j: int| i <= j < skip_word(s, i) ==> !is_ws(#[trigger] s[j]),
    decreases s.len() - i,
{
    if i < s.len() && !is_ws(s[i]) {
        lemma_skip_word(s, i + 1);
    }
}

pub proof fn lemma_back_ws(s: Seq<char>, j: int)
    requires
        0 <= j <= s.len(),
    ensures
        0 <= back_ws(s, j) <= j,
        back_ws(s, j) > 0 ==> !is_ws(s[back_ws(s, j) - 1]),
        forall|k: int| back_ws(s, j) <= k < j ==> is_ws(#[trigger] s[k]),
    decreases j,
{
    if j > 0 && is_ws(s[j - 1]) {
        lemma_back_ws(s, j - 1);
    }
}

pub fn skip_ws_at(s: &Vec<char>, i: usize) -> (r: usize)
    requires
        i <= s@.len(),
    ensures
        r == skip_ws(s@, i as int),
        i <= r <= s@.len(),
{
    proof {
        lemma_skip_ws(s@, i as int);
    }
    let mut k: usize = i;
    while k < s.len() && whitespace(s[k])
        invariant
            i <= k <= s@.len(),
            skip_ws(s@, i as int) == skip_ws(s@, k as int),
        decreases s.len() - k,
    {
        k += 1;
    }
    k
}

pub fn skip_word_at(s: &Vec<char>, i: usize) -> (r: usize)
    requires
        i <= s@.len(),
    ensures
        r == skip_word(s@, i as int),
        i <= r <= s@.len(),
{
    proof {
        lemma_skip_word(s@, i as int);
    }
    let mut k: usize = i;
    while k < s.len() && !whitespace(s[k])
        invariant
            i <= k <= s@.len(),
            skip_word(s@, i as int) == skip_word(s@, k as int),
        decreases s.len() - k,
    {
        k += 1;
    }
    k
}

pub fn back_ws_at(s: &Vec<char>, j: usize) -> (r: usize)
    requires
        j <= s@.len(),
    ensures
        r == back_ws(s@, j as int),
        r <= j,
{
    proof {
        lemma_back_ws(s@, j as int);
    }
    let mut k: usize = j;
    while k > 0 && whitespace(s[k - 1])
        invariant
            k <= j <= s@.len(),
            back_ws(s@, j as int) == back_ws(s@, k as int),
        decreases k,
    {
        k -= 1;
    }
    k
}

pub fn trim_start_of(s: &Vec<char>) -> (r: Vec<char>)
    ensures
        r@ == trim_start(s@),
{
    let a: usize = skip_ws_at(s, 0);
    slice(s, a, s.len())
}

pub fn trim_end_of(s: &Vec<char>) -> (r: Vec<char>)
    ensures
        r@ == trim_end(s@),
{
    let b: usize = back_ws_at(s, s.len());
    slice(s, 0, b)
}

pub fn trim_of(s: &Vec<char>) -> (r: Vec<char>)
    ensures
        r@ == trim(s@),
{
    let t = trim_start_of(s);
    trim_end_of(&t)
}

// ----------------------------------------------------------------- tokens

/// The whitespace-separated words of `s` from index `i` on
/// (what `split_whitespace` yields).
pub open spec fn tokens_from(s: Seq<char>, i: int) -> Seq<Seq<char>>
    decreases s.len() - i,
{
    if i < 0 || i >= s.len() {
        seq![]
    } else {
        let a = skip_ws(s, i);
        if a >= s.len() {
            seq![]
        } else {
            let b = skip_word(s, a);
            if b <= i || b > s.len() {
                seq![]
            } else {
                seq![s.subrange(a, b)] + tokens_from(s, b)
            }
        }
    }
}

pub open spec fn tokens(s: Seq<char>) -> Seq<Seq<char>> {
    tokens_from(s, 0)
}

pub proof fn lemma_token_step(s: Seq<char>, i: int)
    requires
        0 <= i < s.len(),
        skip_ws(s, i) < s.len(),
    ensures
        skip_word(s, skip_ws(s, i)) > i,
        skip_word(s, skip_ws(s, i)) > skip_ws(s, i),
        skip_word(s, skip_ws(s, i)) <= s.len(),
{
    lemma_skip_ws(s, i);
    lemma_skip_word(s, skip_ws(s, i));
    let a = skip_ws(s, i);
    if a < s.len() {
        lemma_skip_word(s, a + 1);
    }
}

/// The next word at or after `i`: its bounds, if any.
pub fn next_token(s: &Vec<char>, i: usize) -> (r: Option<(usize, usize)>)
    requires
        i <= s@.len(),
    ensures
        r is None ==> tokens_from(s@, i as int) == Seq::<Seq<char>>::empty(),
        r matches Some((a, b)) ==> {
            &&& i <= a < b <= s@.len()
            &&& tokens_from(s@, i as int) == seq![s@.subrange(a as int, b as int)] + tokens_from(
                s@,
                b as int,
            )
        },
{
    if i >= s.len() {
        return None;
    }
    let a: usize = skip_ws_at(s, i);
    if a >= s.len() {
        return None;
    }
    let b: usize = skip_word_at(s, a);
    proof {
        lemma_token_step(s@, i as int);
    }
    Some((a, b))
}

/// All words of `s`, split on whitespace.
pub fn split_ws(s: &Vec<char>) -> (r: Vec<Vec<char>>)
    ensures
        r@.len() == tokens(s@).len(),
        forall|k: int| 0 <= k < r@.len() ==> #[trigger] r@[k]@ == tokens(s@)[k],
{
    let mut r: Vec<Vec<char>> = Vec::new();
    let mut i: usize = 0;
    let ghost mut done: Seq<Seq<char>> = seq![];
    loop
        invariant
            i <= s@.len(),
            tokens(s@) == done + tokens_from(s@, i as int),
            r@.len() == done.len(),
            forall|k: int| 0 <= k < r@.len() ==> #[trigger] r@[k]@ == done[k],
        decreases s@.len() - i,
    {
        match next_token(s, i) {
            None => {
                assert(done + tokens_from(s@, i as int) == done);
                return r;
            },
            Some((a, b)) => {
                let w = slice(s, a, b);
                r.push(w);
                proof {
                    assert(done + tokens_from(s@, i as int) == done.push(s@.subrange(a as int, b as int)) + tokens_from(s@, b as int));
                    done = done.push(s@.subrange(a as int, b as int));
                }
                i = b;
            },
        }
    }
}

// ---------------------------------------------------------------- numbers

/// Decimal value of a digit string.
pub open spec fn dec_val(s: Seq<char>) -> nat
    decreases s.len(),
{
    if s.len() == 0 {
        0
    } else {
        dec_val(s.drop_last()) * 10 + digit_val(s.last())
    }
}

pub open spec fn all_digits(s: Seq<char>) -> bool {
    forall|i: int| 0 <= i < s.len() ==> is_digit(#[trigger] s[i])
}

/// `str::parse` of an unsigned integer type whose largest value is `max`:
/// an optional `+`, then one or more ASCII digits, value within range.
pub open spec fn parse_uint(s: Seq<char>, max: nat) -> Option<nat> {
    let d = if s.len() > 0 && s[0] == '+' { s.skip(1) } else { s };
    if d.len() > 0 && all_digits(d) && dec_val(d) <= max {
        Some(dec_val(d))
    } else {
        None
    }
}

/// `str::parse` of a signed integer type with range `min..=max`.
pub open spec fn parse_int(s: Seq<char>, min: int, max: int) -> Option<int> {
    let neg = s.len() > 0 && s[0] == '-';
    let d = if s.len() > 0 && (s[0] == '+' || s[0] == '-') { s.skip(1) } else { s };
    if d.len() > 0 && all_digits(d) {
        let v: int = if neg { -(dec_val(d) as int) } else { dec_val(d) as int };
        if min <= v <= max { Some(v) } else { None }
    } else {
        None
    }
}

pub proof fn lemma_dec_val_prefix(s: Seq<char>, i: int)
    requires
        0 <= i <= s.len(),
        all_digits(s),
    ensures
        dec_val(s.take(i)) <= dec_val(s),
    decreases s.len() - i,
{
    if i < s.len() {
        lemma_dec_val_prefix(s, i + 1);
        assert(s.take(i + 1).drop_last() == s.take(i));
    } else {
        assert(s.take(i) == s);
    }
}

/// Decimal value of `s[a..b]`, or `None` when a char is not a digit or the
/// value exceeds `max`.
pub fn digits_value(s: &Vec<char>, a: usize, b: usize, max: u64) -> (r: Option<u64>)
    requires
        a <= b <= s@.len(),
    ensures
        r matches Some(v) ==> all_digits(s@.subrange(a as int, b as int)) && v == dec_val(
            s@.subrange(a as int, b as int),
        ) && v <= max,
        r is None ==> !all_digits(s@.subrange(a as int, b as int)) || dec_val(
            s@.subrange(a as int, b as int),
        ) > max,
{
    let ghost d = s@.subrange(a as int, b as int);
    let mut v: u64 = 0;
    let mut i: usize = a;
    while i < b
        invariant
            a <= i <= b <= s@.len(),
            d == s@.subrange(a as int, b as int),
            all_digits(d.take(i - a)),
            v == dec_val(d.take(i - a)),
            v <= max,
        decreases b - i,
    {
        let c = s[i];
        assert(d.take(i - a + 1).drop_last() == d.take(i - a));
        assert(d.take(i - a + 1).last() == c);
        if !digit(c) {
            assert(!is_digit(d[i - a]));
            return None;
        }
        let dv: u64 = (c as u32 - 48) as u64;
        assert(all_digits(d.take(i - a + 1)));
        if dv > max || v > (max - dv) / 10 {
            proof {
                assert(dec_val(d.take(i - a + 1)) == v * 10 + dv);
                if dv <= max {
                    assert(v * 10 + dv > max) by (nonlinear_arith)
                        requires
                            v > (max - dv) / 10,
                            dv <= max,
                    ;
                }
            }
            proof {
                if all_digits(d) {
                    lemma_dec_val_prefix(d, i - a + 1);
                }
            }
            return None;
        }
        proof {
            assert(v * 10 + dv <= max) by (nonlinear_arith)
                requires
                    v <= (max - dv) / 10,
                    dv <= max,
            ;
        }
        v = v * 10 + dv;
        i += 1;
    }
    assert(d.take(b - a) == d);
    Some(v)
}

/// `str::parse::<uN>()` on `s[a..b]`, with `max = uN::MAX`.
pub fn parse_uint_at(s: &Vec<char>, a: usize, b: usize, max: u64) -> (r: Option<u64>)
    requires
        a <= b <= s@.len(),
    ensures
        r matches Some(v) ==> parse_uint(s@.subrange(a as int, b as int), max as nat) == Some(
            v as nat,
        ),
        r is None ==> parse_uint(s@.subrange(a as int, b as int), max as nat) is None,
{
    let ghost t = s@.subrange(a as int, b as int);
    let start = if a < b && s[a] == '+' {
        a + 1
    } else {
        a
    };
    assert(s@.subrange(start as int, b as int) == (if t.len() > 0 && t[0] == '+' {
        t.skip(1)
    } else {
        t
    }));
    if start >= b {
        return None;
    }
    digits_value(s, start, b, max)
}

pub fn parse_uint_str(s: &Vec<char>, max: u64) -> (r: Option<u64>)
    ensures
        r matches Some(v) ==> parse_uint(s@, max as nat) == Some(v as nat),
        r is None ==> parse_uint(s@, max as nat) is None,
{
    assert(s@.subrange(0, s@.len() as int) == s@);
    parse_uint_at(s, 0, s.len(), max)
}

/// `str::parse::<iN>()` with range `-(max+1)..=max`.
pub fn parse_int_str(s: &Vec<char>, max: u64) -> (r: Option<i64>)
    requires
        max < 0x8000_0000_0000_0000,
    ensures
        r matches Some(v) ==> parse_int(s@, -(max + 1), max as int) == Some(v as int),
        r is None ==> parse_int(s@, -(max + 1), max as int) is None,
{
    let signed = s.len() > 0 && (s[0] == '+' || s[0] == '-');
    let neg = s.len() > 0 && s[0] == '-';
    let start: usize = if signed {
        1
    } else {
        0
    };
    let ghost d = if s@.len() > 0 && (s@[0] == '+' || s@[0] == '-') {
        s@.skip(1)
    } else {
        s@
    };
    assert(s@.subrange(start as int, s@.len() as int) == d);
    if start >= s.len() {
        return None;
    }
    let lim: u64 = if neg {
        max + 1
    } else {
        max
    };
    match digits_value(s, start, s.len(), lim) {
        Some(v) => {
            if neg {
                if v == max + 1 {
                    Some(-(max as i64) - 1)
                } else {
                    Some(-(v as i64))
                }
            } else {
                Some(v as i64)
            }
        },
        None => None,
    }
}

/// Decimal representation of `n`.
pub open spec fn dec_str(n: nat) -> Seq<char>
    decreases n,
{
    if n < 10 {
        seq![digit_char(n)]
    } else {
        dec_str(n / 10).push(digit_char(n % 10))
    }
}

pub proof fn lemma_digit_char(d: nat)
    requires
        d < 10,
    ensures
        is_digit(digit_char(d)),
        digit_val(digit_char(d)) == d,
{
}

pub proof fn lemma_dec_str_digits(n: nat)
    ensures
        dec_str(n).len() >= 1,
        all_digits(dec_str(n)),
        dec_val(dec_str(n)) == n,
    decreases n,
{
    lemma_digit_char(n % 10);
    if n < 10 {
        assert(dec_str(n).drop_last() =~= Seq::<char>::empty());
        assert(dec_val(dec_str(n)) == dec_val(Seq::<char>::empty()) * 10 + digit_val(digit_char(n)));
    }
    if n >= 10 {
        lemma_dec_str_digits(n / 10);
        let s = dec_str(n);
        assert(s.drop_last() == dec_str(n / 10));
        assert(s.last() == digit_char(n % 10));
        assert((n / 10) * 10 + n % 10 == n);
        assert(dec_val(s) == dec_val(dec_str(n / 10)) * 10 + digit_val(s.last()));
        assert forall|i: int| 0 <= i < s.len() implies is_digit(#[trigger] s[i]) by {
            if i < s.len() - 1 {
                assert(s[i] == dec_str(n / 10)[i]);
            }
        }
    }
}

pub fn dec_chars(n: u64) -> (r: Vec<char>)
    ensures
        r@ == dec_str(n as nat),
    decreases n,
{
    if n < 10 {
        let mut v = Vec::new();
        v.push(digit_of(n));
        v
    } else {
        let mut v = dec_chars(n / 10);
        v.push(digit_of(n % 10));
        v
    }
}

/// `s` left-padded with `fill` to at least `w` chars.
pub open spec fn pad_left(s: Seq<char>, w: nat, fill: char) -> Seq<char> {
    if s.len() >= w {
        s
    } else {
        Seq::new((w - s.len()) as nat, |i: int| fill) + s
    }
}

/// `s` right-padded with spaces to at least `w` chars (`{:<w}`).
pub open spec fn pad_right(s: Seq<char>, w: nat) -> Seq<char> {
    if s.len() >= w {
        s
    } else {
        s + Seq::new((w - s.len()) as nat, |i: int| ' ')
    }
}

pub fn pad_left_of(s: &Vec<char>, w: usize, fill: char) -> (r: Vec<char>)
    ensures
        r@ == pad_left(s@, w as nat, fill),
{
    if s.len() >= w {
        return s.clone();
    }
    let mut r: Vec<char> = Vec::new();
    let n: usize = w - s.len();
    let mut i: usize = 0;
    while i < n
        invariant
            i <= n,
            r@ == Seq::new(i as nat, |k: int| fill),
        decreases n - i,
    {
        r.push(fill);
        i += 1;
    }
    push_all(&mut r, s);
    r
}

pub fn pad_right_of(s: &Vec<char>, w: usize) -> (r: Vec<char>)
    ensures
        r@ == pad_right(s@, w as nat),
{
    let mut r = s.clone();
    if s.len() >= w {
        return r;
    }
    let n: usize = w - s.len();
    let mut i: usize = 0;
    while i < n
        invariant
            i <= n,
            n == w - s@.len(),
            r@ == s@ + Seq::new(i as nat, |k: int| ' '),
        decreases n - i,
    {
        r.push(' ');
        i += 1;
    }
    r
}

/// Zero-padded decimal, `{:0w}`.
pub fn dec_padded(n: u64, w: usize) -> (r: Vec<char>)
    ensures
        r@ == pad_left(dec_str(n as nat), w as nat, '0'),
{
    let d = dec_chars(n);
    pad_left_of(&d, w, '0')
}


// ------------------------------------------------------ trimming by char

/// `s` with every trailing `c` removed (`trim_end_matches`).
pub open spec fn strip_end(s: Seq<char>, c: char) -> Seq<char>
    decreases s.len(),
{
    if s.len() > 0 && s.last() == c {
        strip_end(s.drop_last(), c)
    } else {
        s
    }
}

/// `s` with every leading `c` removed (`trim_start_matches`).
pub open spec fn strip_start(s: Seq<char>, c: char) -> Seq<char>
    decreases s.len(),
{
    if s.len() > 0 && s[0] == c {
        strip_start(s.skip(1), c)
    } else {
        s
    }
}

/// `trim_matches(c)`: leading and trailing `c` removed.
pub open spec fn strip_both(s: Seq<char>, c: char) -> Seq<char> {
    strip_end(strip_start(s, c), c)
}

pub fn strip_end_of(s: &mut Vec<char>, c: char)
    ensures
        final(s)@ == strip_end(old(s)@, c),
{
    while s.len() > 0 && s[s.len() - 1] == c
        invariant
            strip_end(s@, c) == strip_end(old(s)@, c),
        decreases s.len(),
    {
        s.pop();
    }
}

pub fn strip_both_of(s: &Vec<char>, c: char) -> (r: Vec<char>)
    ensures
        r@ == strip_both(s@, c),
{
    let mut i: usize = 0;
    assert(s@.skip(0) == s@);
    while i < s.len() && s[i] == c
        invariant
            i <= s@.len(),
            strip_start(s@.skip(i as int), c) == strip_start(s@, c),
        decreases s.len() - i,
    {
        assert(s@.skip(i as int).skip(1) == s@.skip(i + 1));
        i += 1;
    }
    assert(strip_start(s@.skip(i as int), c) == s@.skip(i as int));
    let mut r = slice(s, i, s.len());
    assert(r@ == s@.skip(i as int));
    strip_end_of(&mut r, c);
    r
}

// ------------------------------------------------------------- replacing

/// `str::replace` for a non-empty pattern: every non-overlapping
/// occurrence of `p`, scanning left to right, becomes `w`.
pub open spec fn replace_all(s: Seq<char>, p: Seq<char>, w: Seq<char>) -> Seq<char>
    decreases s.len(),
{
    if p.len() == 0 || s.len() < p.len() {
        s
    } else if s.take(p.len() as int) == p {
        w + replace_all(s.skip(p.len() as int), p, w)
    } else {
        seq![s[0]] + replace_all(s.skip(1), p, w)
    }
}

proof fn lemma_replace_step(s: Seq<char>, p: Seq<char>, w: Seq<char>)
    requires
        s.len() > 0,
        p.len() > 0,
        !(s.len() >= p.len() && s.take(p.len() as int) == p),
    ensures
        replace_all(s, p, w) == seq![s[0]] + replace_all(s.skip(1), p, w),
{
    if s.len() < p.len() {
        assert(s == seq![s[0]] + s.skip(1));
    }
}

/// `s.replace(p, w)`.
pub fn replace_str(s: &Vec<char>, p: &str, w: &Vec<char>) -> (r: Vec<char>)
    requires
        p@.len() > 0,
    ensures
        r@ == replace_all(s@, p@, w@),
{
    let pv = chars_of(p);
    let mut out: Vec<char> = Vec::new();
    let mut i: usize = 0;
    assert(s@.skip(0) == s@);
    assert(out@ + replace_all(s@, pv@, w@) == replace_all(s@, pv@, w@));
    while i < s.len()
        invariant
            i <= s@.len(),
            pv@ == p@,
            pv@.len() > 0,
            out@ + replace_all(s@.skip(i as int), pv@, w@) == replace_all(s@, pv@, w@),
        decreases s.len() - i,
    {
        let ghost rest = s@.skip(i as int);
        if pv.len() <= s.len() - i && match_at(s, &pv, i) {
            assert(rest.take(pv@.len() as int) == pv@);
            assert(rest.skip(pv@.len() as int) == s@.skip(i + pv@.len()));
            assert(out@ + w@ + replace_all(s@.skip(i + pv@.len()), pv@, w@) == out@ + (w@
                + replace_all(rest.skip(pv@.len() as int), pv@, w@)));
            push_all(&mut out, w);
            i += pv.len();
        } else {
            proof {
                if rest.len() >= pv@.len() && rest.take(pv@.len() as int) == pv@ {
                    assert(s@.subrange(i as int, i + pv@.len()) == rest.take(pv@.len() as int));
                }
                lemma_replace_step(rest, pv@, w@);
                assert(rest.skip(1) == s@.skip(i + 1));
                assert(out@.push(s@[i as int]) + replace_all(s@.skip(i + 1), pv@, w@) == out@ + (
                seq![rest[0]] + replace_all(rest.skip(1), pv@, w@)));
            }
            out.push(s[i]);
            i += 1;
        }
    }
    assert(s@.skip(i as int) == Seq::<char>::empty());
    assert(out@ + Seq::<char>::empty() == out@);
    out
}

// -------------------------------------------------------------- splitting

/// `str::split(c)`: the pieces between occurrences of `c` (at least one).
pub open spec fn split_char(s: Seq<char>, c: char) -> Seq<Seq<char>>
    decreases s.len(),
{
    let k = find_char_from(s, c, 0);
    if 0 <= k < s.len() {
        seq![s.take(k)] + split_char(s.skip(k + 1), c)
    } else {
        seq![s]
    }
}

pub proof fn lemma_find_char_shift(s: Seq<char>, c: char, i: int, j: int)
    requires
        0 <= i <= s.len(),
        0 <= j,
    ensures
        find_char_from(s.skip(i), c, j) == find_char_from(s, c, i + j) - i,
    decreases s.len() - (i + j),
{
    if i + j < s.len() {
        assert(s.skip(i)[j] == s[i + j]);
        if s[i + j] != c {
            lemma_find_char_shift(s, c, i, j + 1);
        }
    }
}

pub open spec fn views(v: Seq<Vec<char>>) -> Seq<Seq<char>> {
    v.map_values(|x: Vec<char>| x@)
}

/// The pieces of `s` between occurrences of `c`.
pub fn split_on(s: &Vec<char>, c: char) -> (r: Vec<Vec<char>>)
    ensures
        views(r@) == split_char(s@, c),
{
    let mut r: Vec<Vec<char>> = Vec::new();
    let mut i: usize = 0;
    assert(s@.skip(0) == s@);
    loop
        invariant
            i <= s@.len(),
            views(r@) + split_char(s@.skip(i as int), c) == split_char(s@, c),
        decreases s@.len() - i,
    {
        let k = find_char(s, c, i);
        let ghost rest = s@.skip(i as int);
        proof {
            lemma_find_char_shift(s@, c, i as int, 0);
            lemma_find_char_from(s@, c, i as int);
        }
        if k >= s.len() {
            let piece = slice(s, i, s.len());
            assert(piece@ == rest);
            assert(views(r@.push(piece)) == views(r@).push(piece@));
            assert(views(r@) + seq![rest] == views(r@).push(piece@));
            r.push(piece);
            return r;
        }
        let piece = slice(s, i, k);
        assert(piece@ == rest.take(k - i));
        assert(rest.skip(k - i + 1) == s@.skip(k + 1));
        assert(views(r@.push(piece)) == views(r@).push(piece@));
        assert(views(r@) + split_char(rest, c) == views(r@).push(piece@) + split_char(
            s@.skip(k + 1),
            c,
        ));
        r.push(piece);
        i = k + 1;
    }
}

/// The pieces joined with `sep` between them.
pub open spec fn join(parts: Seq<Seq<char>>, sep: Seq<char>) -> Seq<char>
    decreases parts.len(),
{
    if parts.len() == 0 {
        seq![]
    } else if parts.len() == 1 {
        parts[0]
    } else {
        join(parts.drop_last(), sep) + sep + parts.last()
    }
}

pub fn join_strs(parts: &Vec<String>, sep: &str) -> (r: Vec<char>)
    ensures
        r@ == join(parts@.map_values(|x: String| x@), sep@),
{
    let ghost ps = parts@.map_values(|x: String| x@);
    let mut r: Vec<char> = Vec::new();
    let mut i: usize = 0;
    while i < parts.len()
        invariant
            i <= parts@.len(),
            ps == parts@.map_values(|x: String| x@),
            r@ == join(ps.take(i as int), sep@),
        decreases parts.len() - i,
    {
        if i > 0 {
            push_str(&mut r, sep);
        }
        push_str(&mut r, parts[i].as_str());
        assert(ps.take(i + 1).drop_last() == ps.take(i as int));
        assert(ps.take(i + 1).last() == parts@[i as int]@);
        i += 1;
    }
    assert(ps.take(parts@.len() as int) == ps);
    r
}

/// Decimal representation of a signed integer.
pub open spec fn int_str(n: int) -> Seq<char> {
    if n < 0 {
        seq!['-'] + dec_str((-n) as nat)
    } else {
        dec_str(n as nat)
    }
}

pub fn int_chars(n: i64) -> (r: Vec<char>)
    ensures
        r@ == int_str(n as int),
{
    if n < 0 {
        let m: u64 = if n == i64::MIN {
            0x8000_0000_0000_0000u64
        } else {
            (-n) as u64
        };
        let mut r: Vec<char> = Vec::new();
        r.push('-');
        let d = dec_chars(m);
        push_all(&mut r, &d);
        r
    } else {
        dec_chars(n as u64)
    }
}


// ------------------------------------------------------- prefix / split

/// `strip_prefix`: what follows `p` when `s` starts with it.
pub open spec fn strip_prefix(s: Seq<char>, p: Seq<char>) -> Option<Seq<char>> {
    if starts_with(s, p) {
        Some(s.skip(p.len() as int))
    } else {
        None
    }
}

/// `split_once(c)`: the parts before and after the first `c`.
pub open spec fn split_char_once(s: Seq<char>, c: char) -> Option<(Seq<char>, Seq<char>)> {
    let k = find_char_from(s, c, 0);
    if k < s.len() {
        Some((s.take(k), s.skip(k + 1)))
    } else {
        None
    }
}

/// `split_once(char::is_whitespace)`, with the whole of `s` and nothing
/// when it holds no whitespace.
pub open spec fn split_ws_once(s: Seq<char>) -> (Seq<char>, Seq<char>) {
    let k = skip_word(s, 0);
    if k < s.len() {
        (s.take(k), s.skip(k + 1))
    } else {
        (s, seq![])
    }
}

pub fn strip_prefix_of(s: &Vec<char>, p: &str) -> (r: Option<Vec<char>>)
    ensures
        r matches Some(t) ==> strip_prefix(s@, p@) == Some(t@),
        r is None ==> strip_prefix(s@, p@) is None,
{
    let pv = chars_of(p);
    if match_at(s, &pv, 0) {
        let t = slice(s, pv.len(), s.len());
        assert(t@ == s@.skip(p@.len() as int));
        Some(t)
    } else {
        None
    }
}

pub fn split_char_once_of(s: &Vec<char>, c: char) -> (r: Option<(Vec<char>, Vec<char>)>)
    ensures
        r matches Some((a, b)) ==> split_char_once(s@, c) == Some((a@, b@)),
        r is None ==> split_char_once(s@, c) is None,
{
    let k = find_char(s, c, 0);
    proof {
        lemma_find_char_from(s@, c, 0);
    }
    if k < s.len() {
        let a = slice(s, 0, k);
        let b = slice(s, k + 1, s.len());
        assert(a@ == s@.take(k as int));
        assert(b@ == s@.skip(k + 1));
        Some((a, b))
    } else {
        None
    }
}

pub fn split_ws_once_of(s: &Vec<char>) -> (r: (Vec<char>, Vec<char>))
    ensures
        split_ws_once(s@) == (r.0@, r.1@),
{
    let k = skip_word_at(s, 0);
    if k < s.len() {
        let a = slice(s, 0, k);
        let b = slice(s, k + 1, s.len());
        assert(a@ == s@.take(k as int));
        assert(b@ == s@.skip(k + 1));
        (a, b)
    } else {
        assert(s@.subrange(0, s@.len() as int) == s@);
        (slice(s, 0, s.len()), Vec::new())
    }
}


// ------------------------------------------------------------------ UTF-8

/// The UTF-8 encoding of one char.
pub open spec fn utf8_of(c: char) -> Seq<u8> {
    let u = c as u32;
    if u < 0x80 {
        seq![u as u8]
    } else if u < 0x800 {
        seq![(0xC0 + u / 64) as u8, (0x80 + u % 64) as u8]
    } else if u < 0x10000 {
        seq![(0xE0 + u / 4096) as u8, (0x80 + (u / 64) % 64) as u8, (0x80 + u % 64) as u8]
    } else {
        seq![
            (0xF0 + u / 262144) as u8,
            (0x80 + (u / 4096) % 64) as u8,
            (0x80 + (u / 64) % 64) as u8,
            (0x80 + u % 64) as u8,
        ]
    }
}

/// The UTF-8 encoding of a string (what `str::bytes` yields).
pub open spec fn utf8(s: Seq<char>) -> Seq<u8>
    decreases s.len(),
{
    if s.len() == 0 {
        seq![]
    } else {
        utf8(s.drop_last()) + utf8_of(s.last())
    }
}

fn push_utf8(out: &mut Vec<u8>, c: char)
    ensures
        final(out)@ == old(out)@ + utf8_of(c),
{
    let u = c as u32;
    assert(u <= 0x10FFFF);
    if u < 0x80 {
        out.push(u as u8);
    } else if u < 0x800 {
        out.push((0xC0 + u / 64) as u8);
        out.push((0x80 + u % 64) as u8);
    } else if u < 0x10000 {
        out.push((0xE0 + u / 4096) as u8);
        out.push((0x80 + (u / 64) % 64) as u8);
        out.push((0x80 + u % 64) as u8);
    } else {
        out.push((0xF0 + u / 262144) as u8);
        out.push((0x80 + (u / 4096) % 64) as u8);
        out.push((0x80 + (u / 64) % 64) as u8);
        out.push((0x80 + u % 64) as u8);
    }
}

pub fn utf8_bytes(s: &Vec<char>) -> (r: Vec<u8>)
    ensures
        r@ == utf8(s@),
{
    let mut r: Vec<u8> = Vec::new();
    let mut i: usize = 0;
    while i < s.len()
        invariant
            i <= s@.len(),
            r@ == utf8(s@.take(i as int)),
        decreases s.len() - i,
    {
        assert(s@.take(i + 1).drop_last() == s@.take(i as int));
        push_utf8(&mut r, s[i]);
        i += 1;
    }
    assert(s@.take(s@.len() as int) == s@);
    r
}

// ------------------------------------------------------- decimal numbers

/// `10^n`.
pub open spec fn ten_pow(n: nat) -> nat
    decreases n,
{
    if n == 0 { 1 } else { 10 * ten_pow((n - 1) as nat) }
}

/// The digits of the whole part of `0.d × 10^sh`: the first `sh` digits of
/// `d`, zero-padded on the right when `sh` passes its end; none for
/// `sh <= 0`.
pub open spec fn shift_digits(d: Seq<char>, sh: int) -> Seq<char> {
    if sh <= 0 {
        seq![]
    } else if sh <= d.len() {
        d.take(sh)
    } else {
        d + Seq::new((sh - d.len()) as nat, |i: int| '0')
    }
}

/// An exponent `[+-]digits` (at least one digit).
pub open spec fn exp_val(x: Seq<char>) -> Option<int> {
    let neg = x.len() > 0 && x[0] == '-';
    let ds = if x.len() > 0 && (x[0] == '-' || x[0] == '+') { x.skip(1) } else { x };
    if ds.len() > 0 && all_digits(ds) {
        Some(if neg { -(dec_val(ds) as int) } else { dec_val(ds) as int })
    } else {
        None
    }
}

/// Where the exponent marker (`e` or `E`) is, or the length.
pub open spec fn exp_mark(b: Seq<char>) -> int {
    let i = find_char_from(b, 'e', 0);
    let j = find_char_from(b, 'E', 0);
    if i < j { i } else { j }
}

/// A decimal `[+-]digits[.digits][(e|E)[+-]digits]` with at least one
/// mantissa digit (as `str::parse::<f64>` reads it, but for `inf` and
/// `NaN`): its value times `10^k`, truncated toward zero. `None` for
/// anything else.
pub open spec fn dec_scaled(s: Seq<char>, k: nat) -> Option<int> {
    let neg = s.len() > 0 && s[0] == '-';
    let b = if s.len() > 0 && (s[0] == '-' || s[0] == '+') {
        s.skip(1)
    } else {
        s
    };
    let p = exp_mark(b);
    let mant = b.take(p);
    let ex = if p < b.len() { exp_val(b.skip(p + 1)) } else { Some(0int) };
    let dot = find_char_from(mant, '.', 0);
    let ip = mant.take(dot);
    let fp = if dot < mant.len() {
        mant.skip(dot + 1)
    } else {
        Seq::<char>::empty()
    };
    if ip.len() + fp.len() > 0 && all_digits(ip) && all_digits(fp) && ex is Some {
        let m = dec_val(shift_digits(ip + fp, ip.len() + k + ex->0)) as int;
        Some(
            if neg {
                -m
            } else {
                m
            },
        )
    } else {
        None
    }
}

pub open spec fn clamp64(v: int) -> i64 {
    if v < i64::MIN {
        i64::MIN
    } else if v > i64::MAX {
        i64::MAX
    } else {
        v as i64
    }
}

pub open spec fn clamp32(v: int) -> i32 {
    if v < i32::MIN {
        i32::MIN
    } else if v > i32::MAX {
        i32::MAX
    } else {
        v as i32
    }
}

/// 2^64: where the digit accumulator stops growing.
pub open spec fn dec_cap() -> nat {
    0x1_0000_0000_0000_0000
}

fn all_digit_chars(v: &Vec<char>) -> (r: bool)
    ensures
        r == all_digits(v@),
{
    let mut i: usize = 0;
    while i < v.len()
        invariant
            i <= v@.len(),
            forall|j: int| 0 <= j < i ==> is_digit(#[trigger] v@[j]),
        decreases v.len() - i,
    {
        if !digit(v[i]) {
            return false;
        }
        i += 1;
    }
    true
}

/// Decimal value of a digit string, stopping at `cap`.
fn sat_dec_to(ds: &Vec<char>, cap: u128) -> (r: u128)
    requires
        all_digits(ds@),
        1 <= cap <= 0x1_0000_0000_0000_0000_0000_0000,
    ensures
        r == (if dec_val(ds@) >= cap { cap as nat } else { dec_val(ds@) }),
{
    let mut acc: u128 = 0;
    let mut i: usize = 0;
    assert(ds@.take(0) =~= Seq::<char>::empty());
    while i < ds.len()
        invariant
            i <= ds@.len(),
            all_digits(ds@),
            1 <= cap <= 0x1_0000_0000_0000_0000_0000_0000,
            acc == (if dec_val(ds@.take(i as int)) >= cap {
                cap as nat
            } else {
                dec_val(ds@.take(i as int))
            }),
        decreases ds.len() - i,
    {
        assert(ds@.take(i + 1).drop_last() =~= ds@.take(i as int));
        assert(ds@.take(i + 1).last() == ds@[i as int]);
        assert(is_digit(ds@[i as int]));
        let d: u128 = (ds[i] as u32 - 48) as u128;
        if acc < cap {
            acc = acc * 10 + d;
            if acc > cap {
                acc = cap;
            }
        }
        i += 1;
    }
    assert(ds@.take(ds@.len() as int) =~= ds@);
    acc
}

/// Decimal value of a digit string, stopping at 2^64.
fn sat_dec(ds: &Vec<char>) -> (r: u128)
    requires
        all_digits(ds@),
    ensures
        r == (if dec_val(ds@) >= dec_cap() {
            dec_cap()
        } else {
            dec_val(ds@)
        }),
{
    sat_dec_to(ds, 0x1_0000_0000_0000_0000)
}

proof fn lemma_dec_zeros(d: Seq<char>, n: nat)
    requires
        all_digits(d),
    ensures
        all_digits(d + Seq::new(n, |i: int| '0')),
        dec_val(d + Seq::new(n, |i: int| '0')) == dec_val(d) * ten_pow(n),
    decreases n,
{
    let z = d + Seq::new(n, |i: int| '0');
    assert forall|i: int| 0 <= i < z.len() implies is_digit(#[trigger] z[i]) by {
        if i >= d.len() {
            assert(z[i] == '0');
        }
    }
    if n == 0 {
        assert(z =~= d);
        assert(ten_pow(0) == 1);
        assert(dec_val(d) * 1 == dec_val(d));
    } else {
        lemma_dec_zeros(d, (n - 1) as nat);
        let z1 = d + Seq::new((n - 1) as nat, |i: int| '0');
        assert(z.drop_last() =~= z1);
        assert(z.last() == '0');
        assert(digit_val('0') == 0);
        assert(dec_val(z) == dec_val(z1) * 10 + digit_val(z.last()));
        assert(dec_val(d) * ten_pow((n - 1) as nat) * 10 == dec_val(d) * ten_pow(n)) by (nonlinear_arith)
            requires
                ten_pow(n) == 10 * ten_pow((n - 1) as nat),
        ;
    }
}

proof fn lemma_ten_pow_mono(a: nat, b: nat)
    requires
        a <= b,
    ensures
        1 <= ten_pow(a) <= ten_pow(b),
    decreases b,
{
    if a < b {
        lemma_ten_pow_mono(a, (b - 1) as nat);
    } else if a > 0 {
        lemma_ten_pow_mono((a - 1) as nat, (a - 1) as nat);
    }
}

/// `min(v · 10^extra, cap)` from `min(v, cap)`, cap = 2^64.
fn scale_up(m0: u128, extra: u128, Ghost(v): Ghost<nat>) -> (r: u128)
    requires
        m0 == (if v >= dec_cap() { dec_cap() } else { v }),
    ensures
        r == (if v * ten_pow(extra as nat) >= dec_cap() { dec_cap() } else { v * ten_pow(extra as nat) }),
{
    let cap: u128 = 0x1_0000_0000_0000_0000;
    let mut m = m0;
    let mut i: u128 = 0;
    proof {
        assert(ten_pow(0) == 1);
        assert(v * ten_pow(0) == v);
    }
    while i < extra && m != 0 && m < cap
        invariant
            i <= extra,
            cap == dec_cap(),
            m == (if v * ten_pow(i as nat) >= cap { cap as nat } else { v * ten_pow(i as nat) }),
        decreases extra - i,
    {
        proof {
            assert(v * ten_pow((i + 1) as nat) == v * ten_pow(i as nat) * 10) by (nonlinear_arith)
                requires
                    ten_pow((i + 1) as nat) == 10 * ten_pow(i as nat),
            ;
        }
        m = m * 10;
        if m > cap {
            m = cap;
        }
        i += 1;
    }
    proof {
        lemma_ten_pow_mono(i as nat, extra as nat);
        if m == 0 {
            assert(v * ten_pow(i as nat) == 0);
            assert(v == 0) by (nonlinear_arith)
                requires
                    v * ten_pow(i as nat) == 0,
                    ten_pow(i as nat) >= 1,
            ;
            assert(v * ten_pow(extra as nat) == 0);
        } else if m == cap {
            assert(v * ten_pow(i as nat) <= v * ten_pow(extra as nat)) by (nonlinear_arith)
                requires
                    ten_pow(i as nat) <= ten_pow(extra as nat),
            ;
        }
    }
    m
}

proof fn lemma_ten_pow_20()
    ensures
        ten_pow(20) == 100_000_000_000_000_000_000,
{
    reveal_with_fuel(ten_pow, 21);
}

/// Beyond this an exponent's size no longer matters.
pub const EXP_CAP: u128 = 0x40_0000_0000_0000_0000;

/// The exponent after the marker at `p` (none when `p` is the end): its
/// sign, its size (stopping at `EXP_CAP`) and, as a ghost, its size.
fn exp_part(b: &Vec<char>, p: usize) -> (r: Option<(bool, u128, Ghost<nat>)>)
    requires
        p <= b@.len(),
    ensures
        r is None <==> (p < b@.len() && exp_val(b@.skip(p + 1)) is None),
        r matches Some((neg, mag, t)) ==> ({
            let ev = if p < b@.len() { exp_val(b@.skip(p + 1))->0 } else { 0 };
            &&& ev == (if neg { -(t@ as int) } else { t@ as int })
            &&& mag == (if t@ >= EXP_CAP { EXP_CAP as nat } else { t@ })
        }),
{
    if p >= b.len() {
        return Some((false, 0, Ghost(0nat)));
    }
    let x = slice(b, p + 1, b.len());
    assert(x@ =~= b@.skip(p + 1));
    let xn = x.len();
    let es: usize = if xn > 0 && (x[0] == '-' || x[0] == '+') {
        1
    } else {
        0
    };
    let neg = xn > 0 && x[0] == '-';
    let ds = slice(&x, es, xn);
    assert(ds@ =~= (if x@.len() > 0 && (x@[0] == '-' || x@[0] == '+') { x@.skip(1) } else { x@ }));
    if ds.len() == 0 || !all_digit_chars(&ds) {
        return None;
    }
    let mag = sat_dec_to(&ds, EXP_CAP);
    Some((neg, mag, Ghost(dec_val(ds@))))
}

/// `min(dec_val(shift_digits(d, sh_true)), 2^64)`, computed from `sh`,
/// which is `sh_true` or on the same side of everything that matters.
fn shifted_value(d: &Vec<char>, sh: i128, Ghost(sh_true): Ghost<int>) -> (m: u128)
    requires
        all_digits(d@),
        d@.len() <= usize::MAX,
        sh == sh_true || (sh <= 0 && sh_true <= sh) || (sh >= d@.len() + 20 && sh_true >= sh),
    ensures
        m == (if dec_val(shift_digits(d@, sh_true)) >= dec_cap() {
            dec_cap()
        } else {
            dec_val(shift_digits(d@, sh_true))
        }),
{
    let dl = d.len() as i128;
    proof {
        lemma_ten_pow_20();
    }
    if sh <= 0 {
        0
    } else if sh <= dl {
        let t = slice(d, 0, sh as usize);
        assert(t@ =~= d@.take(sh as int));
        sat_dec(&t)
    } else {
        let v0 = sat_dec(d);
        let m = scale_up(v0, (sh - dl) as u128, Ghost(dec_val(d@)));
        proof {
            let a = (sh - dl) as nat;
            lemma_dec_zeros(d@, a);
            if sh != sh_true {
                let bb = (sh_true - dl) as nat;
                lemma_dec_zeros(d@, bb);
                lemma_ten_pow_mono(20, a);
                lemma_ten_pow_mono(a, bb);
                let dv = dec_val(d@);
                if dv >= 1 {
                    assert(dv * ten_pow(a) >= ten_pow(a)) by (nonlinear_arith)
                        requires
                            dv >= 1,
                    ;
                    assert(dv * ten_pow(bb) >= ten_pow(bb)) by (nonlinear_arith)
                        requires
                            dv >= 1,
                    ;
                } else {
                    assert(dv * ten_pow(a) == 0 && dv * ten_pow(bb) == 0) by (nonlinear_arith)
                        requires
                            dv == 0,
                    ;
                }
            }
        }
        m
    }
}

/// `dec_scaled(s, k)`, clamped to the range of `i64`.
#[verifier::rlimit(60)]
#[verifier::spinoff_prover]
pub fn parse_scaled(s: &Vec<char>, k: usize) -> (r: Option<i64>)
    ensures
        r == (match dec_scaled(s@, k as nat) {
            Some(v) => Some(clamp64(v)),
            None => None,
        }),
{
    let n = s.len();
    let neg = n > 0 && s[0] == '-';
    let start: usize = if n > 0 && (s[0] == '-' || s[0] == '+') {
        1
    } else {
        0
    };
    let b = slice(s, start, n);
    assert(b@ =~= (if s@.len() > 0 && (s@[0] == '-' || s@[0] == '+') { s@.skip(1) } else { s@ }));
    let pe = find_char(&b, 'e', 0);
    let pu = find_char(&b, 'E', 0);
    proof {
        lemma_find_char_from(b@, 'e', 0);
        lemma_find_char_from(b@, 'E', 0);
    }
    let p = if pe < pu { pe } else { pu };
    assert(p == exp_mark(b@));
    let mant = slice(&b, 0, p);
    assert(mant@ =~= b@.take(p as int));
    let (e_neg, e_mag, Ghost(t)) = match exp_part(&b, p) {
        None => {
            return None;
        },
        Some(x) => x,
    };
    let ghost ev: int = if e_neg { -(t as int) } else { t as int };
    let dot = find_char(&mant, '.', 0);
    proof {
        lemma_find_char_from(mant@, '.', 0);
    }
    let ip = slice(&mant, 0, dot);
    assert(ip@ =~= mant@.take(dot as int));
    let fp = if dot < mant.len() {
        slice(&mant, dot + 1, mant.len())
    } else {
        Vec::new()
    };
    assert(dot < mant@.len() ==> fp@ =~= mant@.skip(dot + 1));
    if ip.len() + fp.len() == 0 || !all_digit_chars(&ip) || !all_digit_chars(&fp) {
        return None;
    }
    let mut d = slice(&ip, 0, ip.len());
    assert(d@ =~= ip@);
    push_all(&mut d, &fp);
    assert(all_digits(d@)) by {
        assert forall|i: int| 0 <= i < d@.len() implies is_digit(#[trigger] d@[i]) by {
            if i >= ip@.len() {
                assert(d@[i] == fp@[i - ip@.len()]);
            }
        }
    }
    let ghost sh_true: int = ip@.len() + k + ev;
    let base: i128 = ip.len() as i128 + k as i128;
    let sh: i128 = if e_neg {
        base - e_mag as i128
    } else {
        base + e_mag as i128
    };
    assert(d@.len() == ip@.len() + fp@.len());
    let m = shifted_value(&d, sh, Ghost(sh_true));
    if neg {
        if m >= 0x8000_0000_0000_0000 {
            Some(i64::MIN)
        } else {
            Some(-(m as i64))
        }
    } else {
        if m > 0x7fff_ffff_ffff_ffff {
            Some(i64::MAX)
        } else {
            Some(m as i64)
        }
    }
}

} // verus!
