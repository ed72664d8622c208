//! The scanner brain: which channel to listen to next, when to hold on a
//! signal and when to move on. Time is milliseconds on a monotonic clock
//! supplied by the caller, who also measures the signal and retunes.

use vstd::prelude::*;
use crate::config::Chan;
use crate::freq::{fmt_short, spec_fmt_short};
use crate::text::{chars_of, push_str, string_of};

verus! {

#[derive(Clone, Debug)]
pub struct ScanChan {
    pub label: String,
    pub hz: u64,
    pub locked: bool,
    pub priority: bool,
    pub hits: u32,
}

#[derive(Clone, Copy, PartialEq, Eq, Debug, Structural)]
pub enum ScanPhase {
    Paused,
    Sampling,
    Hold,
}

/// What a clock tick asks of the caller.
#[derive(Clone, Copy, PartialEq, Eq, Debug, Structural)]
pub enum ScanEvent {
    /// nothing to do
    Idle,
    /// a signal appeared on this channel (its hit count went up)
    Hit(usize),
    /// retune to this frequency
    Retune(u64),
}

pub struct ScanState {
    pub channels: Vec<ScanChan>,
    pub cur: usize,
    pub phase: ScanPhase,
    /// when the current phase (or channel) began, ms
    pub phase_since: u64,
    /// when a signal was last heard, ms
    pub last_signal: u64,
    /// hops since the priority channel was last visited
    pub hops_since_priority: u32,
}

/// The channel index stays inside the list whenever the list has any.
pub open spec fn scan_wf(s: ScanState) -> bool {
    &&& s.channels@.len() < 0x4000_0000
    &&& (s.channels@.len() > 0 ==> s.cur < s.channels@.len())
}

/// Index of the first channel with `p`, or -1.
pub open spec fn first_where(ch: Seq<ScanChan>, p: spec_fn(ScanChan) -> bool, i: int) -> int
    decreases ch.len() - i,
{
    if i < 0 || i >= ch.len() {
        -1
    } else if p(ch[i]) {
        i
    } else {
        first_where(ch, p, i + 1)
    }
}

pub open spec fn is_open(c: ScanChan) -> bool {
    !c.locked
}

pub open spec fn is_priority(c: ScanChan) -> bool {
    c.priority && !c.locked
}

/// The first unlocked priority channel, or -1.
pub open spec fn priority_index(ch: Seq<ScanChan>) -> int {
    first_where(ch, |c: ScanChan| is_priority(c), 0)
}

/// Hop from `idx` by `dir` up to `k` times, stopping on the first
/// unlocked channel.
pub open spec fn next_open(ch: Seq<ScanChan>, idx: int, dir: int, k: nat) -> int
    decreases k,
{
    if k == 0 || ch.len() == 0 {
        idx
    } else {
        let j = (idx + dir) % (ch.len() as int);
        if !ch[j].locked {
            j
        } else {
            next_open(ch, j, dir, (k - 1) as nat)
        }
    }
}

pub open spec fn sat_inc(x: u32) -> u32 {
    if x == u32::MAX {
        x
    } else {
        (x + 1) as u32
    }
}

/// The channel a step by `dir` lands on: the priority channel when it has
/// waited four hops and is not current, else the next unlocked channel.
pub open spec fn step_target(s: ScanState, dir: int) -> int {
    let pri = priority_index(s.channels@);
    if pri >= 0 && sat_inc(s.hops_since_priority) >= 4 && pri != s.cur {
        pri
    } else {
        next_open(s.channels@, s.cur as int, dir, s.channels@.len())
    }
}

/// The scanner after a step by `dir` at `now`.
pub open spec fn stepped(s: ScanState, dir: int, now: u64) -> (usize, u64, u32) {
    let t = step_target(s, dir);
    let hops = if t == priority_index(s.channels@) { 0u32 } else { sat_inc(s.hops_since_priority) };
    (t as usize, now, hops)
}

proof fn lemma_next_open_range(ch: Seq<ScanChan>, idx: int, dir: int, k: nat)
    requires
        ch.len() > 0,
        0 <= idx < ch.len(),
    ensures
        0 <= next_open(ch, idx, dir, k) < ch.len(),
    decreases k,
{
    if k > 0 {
        let j = (idx + dir) % (ch.len() as int);
        if ch[j].locked {
            lemma_next_open_range(ch, j, dir, (k - 1) as nat);
        }
    }
}

proof fn lemma_first_where(ch: Seq<ScanChan>, p: spec_fn(ScanChan) -> bool, i: int)
    requires
        0 <= i,
    ensures
        -1 <= first_where(ch, p, i) < ch.len(),
        first_where(ch, p, i) >= 0 ==> i <= first_where(ch, p, i) && p(ch[first_where(ch, p, i)]),
        first_where(ch, p, i) < 0 ==> forall|j: int| i <= j < ch.len() ==> !p(#[trigger] ch[j]),
        first_where(ch, p, i) >= 0 ==> forall|j: int| i <= j < first_where(ch, p, i) ==> !p(#[trigger] ch[j]),
    decreases ch.len() - i,
{
    if i < ch.len() && !p(ch[i]) {
        lemma_first_where(ch, p, i + 1);
    }
}

fn priority_index_of(ch: &Vec<ScanChan>) -> (r: Option<usize>)
    ensures
        r matches Some(i) ==> priority_index(ch@) == i,
        r is None ==> priority_index(ch@) == -1,
{
    let mut i: usize = 0;
    while i < ch.len()
        invariant
            i <= ch@.len(),
            priority_index(ch@) == first_where(ch@, |c: ScanChan| is_priority(c), i as int),
        decreases ch.len() - i,
    {
        if ch[i].priority && !ch[i].locked {
            return Some(i);
        }
        i += 1;
    }
    None
}

fn first_open_of(ch: &Vec<ScanChan>) -> (r: Option<usize>)
    ensures
        r matches Some(i) ==> first_where(ch@, |c: ScanChan| is_open(c), 0) == i,
        r is None ==> first_where(ch@, |c: ScanChan| is_open(c), 0) == -1,
{
    let mut i: usize = 0;
    while i < ch.len()
        invariant
            i <= ch@.len(),
            first_where(ch@, |c: ScanChan| is_open(c), 0) == first_where(ch@, |c: ScanChan| is_open(c), i as int),
        decreases ch.len() - i,
    {
        if !ch[i].locked {
            return Some(i);
        }
        i += 1;
    }
    None
}

impl ScanState {
    /// The scan list from the configured channels, with the persisted
    /// lockouts and priority frequency applied.
    pub fn from_cfg(chans: &Vec<Chan>, lockouts: &Vec<u64>, priority: Option<u64>, now: u64) -> (s: Self)
        ensures
            s.channels@.len() == chans@.len(),
            forall|i: int|
                0 <= i < chans@.len() ==> {
                    let c = #[trigger] s.channels@[i];
                    &&& c.label == chans@[i].label
                    &&& c.hz == chans@[i].hz
                    &&& c.locked == lockouts@.contains(chans@[i].hz)
                    &&& c.priority == (priority == Some(chans@[i].hz))
                    &&& c.hits == 0
                },
            s.cur == 0,
            s.phase == ScanPhase::Sampling,
            s.phase_since == now,
            s.last_signal == now,
            s.hops_since_priority == 0,
    {
        let mut channels: Vec<ScanChan> = Vec::new();
        let mut i: usize = 0;
        while i < chans.len()
            invariant
                i <= chans@.len(),
                channels@.len() == i,
                forall|j: int|
                    0 <= j < i ==> {
                        let c = #[trigger] channels@[j];
                        &&& c.label == chans@[j].label
                        &&& c.hz == chans@[j].hz
                        &&& c.locked == lockouts@.contains(chans@[j].hz)
                        &&& c.priority == (priority == Some(chans@[j].hz))
                        &&& c.hits == 0
                    },
            decreases chans.len() - i,
        {
            let hz = chans[i].hz;
            let mut locked = false;
            let mut k: usize = 0;
            while k < lockouts.len()
                invariant
                    k <= lockouts@.len(),
                    locked == exists|q: int| 0 <= q < k && lockouts@[q] == hz,
                decreases lockouts.len() - k,
            {
                if lockouts[k] == hz {
                    locked = true;
                }
                k += 1;
            }
            assert(locked == lockouts@.contains(hz));
            let is_pri = match priority {
                Some(p) => p == hz,
                None => false,
            };
            channels.push(ScanChan { label: chans[i].label.clone(), hz, locked, priority: is_pri, hits: 0 });
            i += 1;
        }
        ScanState {
            channels,
            cur: 0,
            phase: ScanPhase::Sampling,
            phase_since: now,
            last_signal: now,
            hops_since_priority: 0,
        }
    }

    /// Start scanning: on the first unlocked channel (or the first one),
    /// sampling from `now`.
    pub fn begin(&mut self, now: u64)
        ensures
            final(self).channels == old(self).channels,
            final(self).cur == (if first_where(old(self).channels@, |c: ScanChan| is_open(c), 0) >= 0 {
                first_where(old(self).channels@, |c: ScanChan| is_open(c), 0) as usize
            } else {
                0usize
            }),
            final(self).phase == ScanPhase::Sampling,
            final(self).phase_since == now,
            final(self).last_signal == old(self).last_signal,
            final(self).hops_since_priority == old(self).hops_since_priority,
    {
        self.cur = match first_open_of(&self.channels) {
            Some(i) => i,
            None => 0,
        };
        self.phase = ScanPhase::Sampling;
        self.phase_since = now;
    }
}


/// `s` with every `x` removed, order kept.
pub open spec fn without(s: Seq<u64>, x: u64) -> Seq<u64>
    decreases s.len(),
{
    if s.len() == 0 {
        s
    } else if s.last() == x {
        without(s.drop_last(), x)
    } else {
        without(s.drop_last(), x).push(s.last())
    }
}

/// `(idx + dir) mod n`, Euclidean.
fn hop(idx: usize, dir: i32, n: usize) -> (j: usize)
    requires
        0 < n < 0x4000_0000,
        idx < n,
    ensures
        j == (idx + dir) % (n as int),
        j < n,
{
    let e: usize = if dir >= 0 {
        (dir as usize) % n
    } else {
        let a: usize = ((-(dir as i64)) as usize) % n;
        proof {
            let d = dir as int;
            let q = (-d) / (n as int);
            vstd::arithmetic::div_mod::lemma_fundamental_div_mod(-d, n as int);
            if a > 0 {
                vstd::arithmetic::div_mod::lemma_mod_multiples_vanish(-(q + 1), n - a, n as int);
                vstd::arithmetic::div_mod::lemma_small_mod((n - a) as nat, n as nat);
                assert((n as int) * (-(q + 1)) + (n - a) == d) by (nonlinear_arith)
                    requires
                        -d == (n as int) * q + a,
                ;
            } else {
                vstd::arithmetic::div_mod::lemma_mod_multiples_vanish(-q, 0, n as int);
                assert((n as int) * (-q) + 0 == d) by (nonlinear_arith)
                    requires
                        -d == (n as int) * q + a,
                        a == 0,
                ;
            }
        }
        if a == 0 {
            0
        } else {
            n - a
        }
    };
    assert(e == (dir as int) % (n as int));
    proof {
        vstd::arithmetic::div_mod::lemma_add_mod_noop_right(idx as int, dir as int, n as int);
    }
    (idx + e) % n
}

fn next_open_of(ch: &Vec<ScanChan>, start: usize, dir: i32) -> (r: usize)
    requires
        0 < ch@.len() < 0x4000_0000,
        start < ch@.len(),
    ensures
        r == next_open(ch@, start as int, dir as int, ch@.len()),
        r < ch@.len(),
{
    let n = ch.len();
    let mut idx = start;
    let mut k: usize = 0;
    while k < n
        invariant
            n == ch@.len(),
            0 < n < 0x4000_0000,
            k <= n,
            idx < n,
            next_open(ch@, start as int, dir as int, n as nat) == next_open(ch@, idx as int, dir as int, (n - k) as nat),
        decreases n - k,
    {
        let j = hop(idx, dir, n);
        if !ch[j].locked {
            return j;
        }
        idx = j;
        k += 1;
    }
    idx
}

impl ScanState {
    /// Advance by `dir` channels, skipping lockouts; the priority channel,
    /// when set, is revisited every few hops. Gives the frequency to tune
    /// (none for an empty list).
    pub fn scan_step(&mut self, dir: i32, now: u64) -> (r: Option<u64>)
        requires
            scan_wf(*old(self)),
        ensures
            scan_wf(*final(self)),
            final(self).channels == old(self).channels,
            final(self).phase == old(self).phase,
            final(self).last_signal == old(self).last_signal,
            old(self).channels@.len() == 0 ==> r is None && *final(self) == *old(self),
            old(self).channels@.len() > 0 ==> {
                &&& (final(self).cur, final(self).phase_since, final(self).hops_since_priority)
                    == stepped(*old(self), dir as int, now)
                &&& r == Some(final(self).channels@[final(self).cur as int].hz)
            },
    {
        let n = self.channels.len();
        if n == 0 {
            return None;
        }
        let pri = priority_index_of(&self.channels);
        proof {
            lemma_first_where(self.channels@, |c: ScanChan| is_priority(c), 0);
            lemma_next_open_range(self.channels@, self.cur as int, dir as int, n as nat);
        }
        let hops = self.hops_since_priority.saturating_add(1);
        let jump = match pri {
            Some(p) => hops >= 4 && p != self.cur,
            None => false,
        };
        let idx: usize = if jump {
            match pri {
                Some(p) => p,
                None => self.cur,
            }
        } else {
            next_open_of(&self.channels, self.cur, dir)
        };
        self.hops_since_priority = match pri {
            Some(p) => if p == idx {
                0
            } else {
                hops
            },
            None => hops,
        };
        self.cur = idx;
        self.phase_since = now;
        Some(self.channels[idx].hz)
    }

    /// One clock tick: `signal` says whether the squelch is open now.
    /// Sampling a channel, a signal starts a hold (and counts a hit);
    /// silence longer than the dwell (at least 150 ms) moves on. Holding,
    /// the hold ends once the signal has been gone longer than the hold
    /// time (at least 300 ms), and the scan moves on.
    pub fn tick(&mut self, now: u64, signal: bool, dwell_ms: u64, hold_ms: u64) -> (ev: ScanEvent)
        requires
            scan_wf(*old(self)),
        ensures
            scan_wf(*final(self)),
            ({
                let s = *old(self);
                let t = *final(self);
                let dwell: u64 = if dwell_ms < 150 { 150 } else { dwell_ms };
                let hold: u64 = if hold_ms < 300 { 300 } else { hold_ms };
                let since = if now >= s.phase_since { now - s.phase_since } else { 0 };
                let quiet = if now >= s.last_signal { now - s.last_signal } else { 0 };
                if s.channels@.len() == 0 || s.phase == ScanPhase::Paused {
                    ev == ScanEvent::Idle && t == s
                } else if s.phase == ScanPhase::Sampling && signal {
                    &&& ev == ScanEvent::Hit(s.cur)
                    &&& t.phase == ScanPhase::Hold
                    &&& t.phase_since == now && t.last_signal == now
                    &&& t.cur == s.cur && t.hops_since_priority == s.hops_since_priority
                    &&& t.channels@ == s.channels@.update(
                        s.cur as int,
                        ScanChan { hits: sat_inc(s.channels@[s.cur as int].hits), ..s.channels@[s.cur as int] },
                    )
                } else if s.phase == ScanPhase::Sampling && since > dwell
                    || s.phase == ScanPhase::Hold && !signal && quiet > hold {
                    &&& (t.cur, t.phase_since, t.hops_since_priority) == stepped(s, 1, now)
                    &&& ev == ScanEvent::Retune(s.channels@[t.cur as int].hz)
                    &&& t.phase == ScanPhase::Sampling
                    &&& t.channels == s.channels && t.last_signal == s.last_signal
                } else if s.phase == ScanPhase::Hold && signal {
                    ev == ScanEvent::Idle && t == ScanState { last_signal: now, ..s }
                } else {
                    ev == ScanEvent::Idle && t == s
                }
            }),
    {
        if self.channels.len() == 0 {
            return ScanEvent::Idle;
        }
        let dwell = if dwell_ms < 150 {
            150
        } else {
            dwell_ms
        };
        let hold = if hold_ms < 300 {
            300
        } else {
            hold_ms
        };
        match self.phase {
            ScanPhase::Paused => ScanEvent::Idle,
            ScanPhase::Sampling => {
                if signal {
                    self.phase = ScanPhase::Hold;
                    self.phase_since = now;
                    self.last_signal = now;
                    let i = self.cur;
                    let mut c = self.channels.remove(i);
                    c.hits = c.hits.saturating_add(1);
                    self.channels.insert(i, c);
                    ScanEvent::Hit(i)
                } else if now.saturating_sub(self.phase_since) > dwell {
                    match self.scan_step(1, now) {
                        Some(hz) => ScanEvent::Retune(hz),
                        None => ScanEvent::Idle,
                    }
                } else {
                    ScanEvent::Idle
                }
            },
            ScanPhase::Hold => {
                if signal {
                    self.last_signal = now;
                    ScanEvent::Idle
                } else if now.saturating_sub(self.last_signal) > hold {
                    self.phase = ScanPhase::Sampling;
                    match self.scan_step(1, now) {
                        Some(hz) => ScanEvent::Retune(hz),
                        None => ScanEvent::Idle,
                    }
                } else {
                    ScanEvent::Idle
                }
            },
        }
    }

    /// Mark or unmark channel `idx`'s frequency as the priority channel;
    /// `priority` is the persisted choice.
    pub fn toggle_priority(&mut self, idx: usize, priority: &mut Option<u64>)
        ensures
            idx >= old(self).channels@.len() ==> *final(self) == *old(self) && *final(priority)
                == *old(priority),
            idx < old(self).channels@.len() ==> {
                let hz = old(self).channels@[idx as int].hz;
                let off = *old(priority) == Some(hz);
                &&& *final(priority) == if off { None } else { Some(hz) }
                &&& final(self).channels@.len() == old(self).channels@.len()
                &&& forall|i: int|
                    0 <= i < old(self).channels@.len() ==> #[trigger] final(self).channels@[i]
                        == (ScanChan { priority: !off && old(self).channels@[i].hz == hz, ..old(self).channels@[i] })
                &&& final(self).cur == old(self).cur
                &&& final(self).phase == old(self).phase
                &&& final(self).phase_since == old(self).phase_since
                &&& final(self).last_signal == old(self).last_signal
                &&& final(self).hops_since_priority == old(self).hops_since_priority
            },
    {
        if idx >= self.channels.len() {
            return;
        }
        let hz = self.channels[idx].hz;
        let off = match *priority {
            Some(p) => p == hz,
            None => false,
        };
        *priority = if off {
            None
        } else {
            Some(hz)
        };
        let ghost before = self.channels@;
        let mut k: usize = 0;
        while k < self.channels.len()
            invariant
                k <= self.channels@.len(),
                self.channels@.len() == before.len(),
                forall|i: int|
                    0 <= i < k ==> #[trigger] self.channels@[i] == (ScanChan {
                        priority: !off && before[i].hz == hz,
                        ..before[i]
                    }),
                forall|i: int| k <= i < before.len() ==> #[trigger] self.channels@[i] == before[i],
                self.cur == old(self).cur,
                self.phase == old(self).phase,
                self.phase_since == old(self).phase_since,
                self.last_signal == old(self).last_signal,
                self.hops_since_priority == old(self).hops_since_priority,
            decreases before.len() - k,
        {
            let mut c = self.channels.remove(k);
            c.priority = !off && c.hz == hz;
            self.channels.insert(k, c);
            k += 1;
        }
    }

    /// Lock out channel `idx` or lift its lockout; `lockouts` is the
    /// persisted list of locked-out frequencies.
    pub fn toggle_lockout(&mut self, idx: usize, lockouts: &mut Vec<u64>)
        ensures
            idx >= old(self).channels@.len() ==> *final(self) == *old(self) && final(lockouts)@
                == old(lockouts)@,
            idx < old(self).channels@.len() ==> {
                let c = old(self).channels@[idx as int];
                &&& final(self).channels@ == old(self).channels@.update(
                    idx as int,
                    ScanChan { locked: !c.locked, ..c },
                )
                &&& !c.locked ==> final(lockouts)@ == if old(lockouts)@.contains(c.hz) {
                    old(lockouts)@
                } else {
                    old(lockouts)@.push(c.hz)
                }
                &&& c.locked ==> final(lockouts)@ == without(old(lockouts)@, c.hz)
                &&& final(self).cur == old(self).cur
                &&& final(self).phase == old(self).phase
                &&& final(self).phase_since == old(self).phase_since
                &&& final(self).last_signal == old(self).last_signal
                &&& final(self).hops_since_priority == old(self).hops_since_priority
            },
    {
        if idx >= self.channels.len() {
            return;
        }
        let mut c = self.channels.remove(idx);
        c.locked = !c.locked;
        let hz = c.hz;
        let locked = c.locked;
        self.channels.insert(idx, c);
        if locked {
            let mut found = false;
            let mut k: usize = 0;
            while k < lockouts.len()
                invariant
                    k <= lockouts@.len(),
                    lockouts@ == old(lockouts)@,
                    found == exists|q: int| 0 <= q < k && lockouts@[q] == hz,
                decreases lockouts.len() - k,
            {
                if lockouts[k] == hz {
                    found = true;
                }
                k += 1;
            }
            if !found {
                lockouts.push(hz);
            }
        } else {
            let mut kept: Vec<u64> = Vec::new();
            let mut k: usize = 0;
            while k < lockouts.len()
                invariant
                    k <= lockouts@.len(),
                    lockouts@ == old(lockouts)@,
                    kept@ == without(lockouts@.take(k as int), hz),
                decreases lockouts.len() - k,
            {
                assert(lockouts@.take(k + 1).drop_last() == lockouts@.take(k as int));
                if lockouts[k] != hz {
                    kept.push(lockouts[k]);
                }
                k += 1;
            }
            assert(lockouts@.take(lockouts@.len() as int) == lockouts@);
            *lockouts = kept;
        }
    }
}


/// The hit log's line for a channel: its label and frequency.
pub fn hit_label(c: &ScanChan) -> (r: String)
    ensures
        r@ == c.label@ + " ("@ + spec_fmt_short(c.hz) + ")"@,
{
    let mut out = chars_of(c.label.as_str());
    push_str(&mut out, " (");
    let f = fmt_short(c.hz);
    push_str(&mut out, f.as_str());
    push_str(&mut out, ")");
    string_of(&out)
}

/// The scanner state after one step by `dir` at `now`.
pub open spec fn after_step(s: ScanState, dir: int, now: u64) -> ScanState {
    let (cur, since, hops) = stepped(s, dir, now);
    ScanState { cur, phase_since: since, hops_since_priority: hops, ..s }
}

/// With a priority channel set, the hop counter stays at most three, and
/// it is zero whenever the priority channel is current.
pub open spec fn priority_on_schedule(s: ScanState) -> bool {
    let pri = priority_index(s.channels@);
    pri >= 0 ==> (s.hops_since_priority <= 3 && (s.cur == pri ==> s.hops_since_priority == 0))
}

/// One step keeps the schedule, and the hop counter is the number of hops
/// since the priority channel was last current: it is zero exactly when
/// the step lands on it, and a step taken with the counter at three
/// always lands on it.
pub proof fn lemma_priority_schedule_kept(s: ScanState, dir: int, now: u64)
    requires
        scan_wf(s),
        s.channels@.len() > 0,
        priority_on_schedule(s),
    ensures
        scan_wf(after_step(s, dir, now)),
        priority_on_schedule(after_step(s, dir, now)),
        priority_index(s.channels@) >= 0 ==> ((after_step(s, dir, now).cur == priority_index(s.channels@))
            <==> after_step(s, dir, now).hops_since_priority == 0),
        priority_index(s.channels@) >= 0 && s.hops_since_priority == 3 ==> after_step(s, dir, now).cur
            == priority_index(s.channels@),
{
    lemma_first_where(s.channels@, |c: ScanChan| is_priority(c), 0);
    lemma_next_open_range(s.channels@, s.cur as int, dir, s.channels@.len());
}

/// The priority channel is revisited every four hops: from a scanner on
/// schedule, any four consecutive steps, in any directions and at any
/// times, land on the priority channel at least once.
pub proof fn lemma_priority_revisited(
    s: ScanState,
    d1: int,
    t1: u64,
    d2: int,
    t2: u64,
    d3: int,
    t3: u64,
    d4: int,
    t4: u64,
)
    requires
        scan_wf(s),
        s.channels@.len() > 0,
        priority_on_schedule(s),
        priority_index(s.channels@) >= 0,
    ensures
        ({
            let pri = priority_index(s.channels@);
            let s1 = after_step(s, d1, t1);
            let s2 = after_step(s1, d2, t2);
            let s3 = after_step(s2, d3, t3);
            let s4 = after_step(s3, d4, t4);
            s1.cur == pri || s2.cur == pri || s3.cur == pri || s4.cur == pri
        }),
{
    let s1 = after_step(s, d1, t1);
    let s2 = after_step(s1, d2, t2);
    let s3 = after_step(s2, d3, t3);
    lemma_priority_schedule_kept(s, d1, t1);
    lemma_priority_schedule_kept(s1, d2, t2);
    lemma_priority_schedule_kept(s2, d3, t3);
    lemma_priority_schedule_kept(s3, d4, t4);
}

/// Stepping by one in either direction never lands on a locked channel
/// while any channel is open.
pub proof fn lemma_step_skips_lockouts(s: ScanState, dir: int, k: int)
    requires
        scan_wf(s),
        dir == 1 || dir == -1,
        0 <= k < s.channels@.len(),
        !s.channels@[k].locked,
    ensures
        !s.channels@[step_target(s, dir)].locked,
{
    let ch = s.channels@;
    let n = ch.len() as int;
    lemma_first_where(ch, |c: ScanChan| is_priority(c), 0);
    let pri = priority_index(ch);
    if !(pri >= 0 && sat_inc(s.hops_since_priority) >= 4 && pri != s.cur) {
        let r = next_open(ch, s.cur as int, dir, n as nat);
        if ch[r].locked {
            lemma_next_open_all_locked(ch, s.cur as int, dir, n as nat);
            let m: int = if dir == 1 { (k - s.cur) % n } else { (s.cur - k) % n };
            let m1: int = if m == 0 { n } else { m };
            assert((s.cur + m1 * dir) % n == k) by {
                lemma_hop_reaches(s.cur as int, k, dir, n);
            }
            assert(ch[(s.cur + m1 * dir) % n].locked);
        }
    }
}

proof fn lemma_hop_reaches(c: int, k: int, dir: int, n: int)
    requires
        0 <= c < n,
        0 <= k < n,
        dir == 1 || dir == -1,
    ensures
        ({
            let m: int = if dir == 1 { (k - c) % n } else { (c - k) % n };
            let m1: int = if m == 0 { n } else { m };
            &&& 1 <= m1 <= n
            &&& (c + m1 * dir) % n == k
        }),
{
    vstd::arithmetic::div_mod::lemma_small_mod(k as nat, n as nat);
    vstd::arithmetic::div_mod::lemma_mod_multiples_vanish(1, k, n);
    vstd::arithmetic::div_mod::lemma_mod_multiples_vanish(-1, k, n);
    assert(n * 1 + k == k + n);
    assert(n * (-1) + k == k - n);
    let d: int = if dir == 1 { k - c } else { c - k };
    let m: int = d % n;
    if d >= 0 {
        vstd::arithmetic::div_mod::lemma_small_mod(d as nat, n as nat);
        assert(m == d);
    } else {
        vstd::arithmetic::div_mod::lemma_mod_multiples_vanish(-1, d + n, n);
        vstd::arithmetic::div_mod::lemma_small_mod((d + n) as nat, n as nat);
        assert(n * (-1) + (d + n) == d);
        assert(m == d + n);
    }
    let m1: int = if m == 0 { n } else { m };
    if dir == 1 {
        assert(m1 * dir == m1);
        if m == 0 {
            assert(c + m1 * dir == k + n);
        } else if d >= 0 {
            assert(c + m1 * dir == k);
        } else {
            assert(c + m1 * dir == k + n);
        }
    } else {
        assert(m1 * dir == -m1);
        if m == 0 {
            assert(c + m1 * dir == k - n);
        } else if d >= 0 {
            assert(c + m1 * dir == k);
        } else {
            assert(c + m1 * dir == k - n);
        }
    }
}

/// When the walk ends on a locked channel, every hop on the way was locked.
proof fn lemma_next_open_all_locked(ch: Seq<ScanChan>, idx: int, dir: int, k: nat)
    requires
        ch.len() > 0,
        0 <= idx < ch.len(),
        ch[next_open(ch, idx, dir, k)].locked,
    ensures
        forall|m: int| 1 <= m <= k ==> ch[#[trigger] ((idx + m * dir) % (ch.len() as int))].locked,
    decreases k,
{
    let n = ch.len() as int;
    if k > 0 {
        let j = (idx + dir) % n;
        assert(ch[j].locked);
        lemma_next_open_all_locked(ch, j, dir, (k - 1) as nat);
        assert forall|m: int| 1 <= m <= k implies ch[#[trigger] ((idx + m * dir) % n)].locked by {
            if m > 1 {
                let m0 = m - 1;
                assert(ch[(j + m0 * dir) % n].locked);
                vstd::arithmetic::div_mod::lemma_add_mod_noop_right(m0 * dir, idx + dir, n);
                assert(j + m0 * dir == m0 * dir + j);
                assert((m0 * dir + (idx + dir)) == idx + m * dir) by (nonlinear_arith)
                    requires
                        m0 == m - 1,
                ;
            } else {
                assert(idx + m * dir == idx + dir);
            }
        }
    }
}

} // verus!
