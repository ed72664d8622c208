//! The seeded generator the simulators draw from, and decimation planning
//! for the receive chain.

use vstd::prelude::*;

verus! {

/// One xorshift step of the state.
pub open spec fn xs_step(x: u64) -> u64 {
    let a = x ^ (x >> 12u64);
    let b = a ^ (a << 25u64);
    b ^ (b >> 27u64)
}

/// The output drawn from a (stepped) state.
pub open spec fn xs_out(x: u64) -> u64 {
    x.wrapping_mul(0x2545_F491_4F6C_DD1D)
}

/// xorshift64* — tiny, deterministic, good enough for signal simulation.
#[derive(Clone, Debug)]
pub struct Rng(u64);

impl View for Rng {
    type V = u64;

    closed spec fn view(&self) -> u64 {
        self.0
    }
}

/// A step never turns a nonzero state into zero, so a generator seeded
/// nonzero never gets stuck.
pub proof fn lemma_step_nonzero(x: u64)
    requires
        x != 0,
    ensures
        xs_step(x) != 0,
{
    let a = x ^ (x >> 12u64);
    let b = a ^ (a << 25u64);
    let c = b ^ (b >> 27u64);
    assert(x != 0 ==> a != 0) by (bit_vector)
        requires
            a == x ^ (x >> 12u64),
    ;
    assert(a != 0 ==> b != 0) by (bit_vector)
        requires
            b == a ^ (a << 25u64),
    ;
    assert(b != 0 ==> c != 0) by (bit_vector)
        requires
            c == b ^ (b >> 27u64),
    ;
}

proof fn lemma_or_one_nonzero(x: u64)
    by (bit_vector)
    ensures
        x | 1 != 0,
{
}

/// The state after `n` steps from `x`.
pub open spec fn xs_iter(x: u64, n: nat) -> u64
    decreases n,
{
    if n == 0 { x } else { xs_step(xs_iter(x, (n - 1) as nat)) }
}

/// The first `n` draws (`next_u64` results) of a generator in state `x`.
pub open spec fn xs_stream(x: u64, n: nat) -> Seq<u64>
    decreases n,
{
    if n == 0 { seq![] } else { xs_stream(x, (n - 1) as nat).push(xs_out(xs_iter(x, n))) }
}

/// Generators made with `Rng::new` from equal seeds (or seeds that differ
/// only in the low bit) draw the same stream, and their state never
/// becomes zero.
pub proof fn lemma_same_seed_same_stream(a: u64, b: u64, n: nat)
    requires
        a | 1 == b | 1,
    ensures
        xs_stream(a | 1, n) == xs_stream(b | 1, n),
        forall|k: nat| k <= n ==> xs_iter(a | 1, k) != 0,
    decreases n,
{
    lemma_or_one_nonzero(a);
    if n > 0 {
        lemma_same_seed_same_stream(a, b, (n - 1) as nat);
        lemma_step_nonzero(xs_iter(a | 1, (n - 1) as nat));
    }
}

impl Rng {
    /// The state starts at the seed with its low bit set, never zero.
    pub fn new(seed: u64) -> (r: Self)
        ensures
            r@ == seed | 1,
            r@ != 0,
    {
        proof {
            lemma_or_one_nonzero(seed);
        }
        Rng(seed | 1)
    }

    pub fn next_u64(&mut self) -> (r: u64)
        ensures
            final(self)@ == xs_step(old(self)@),
            r == xs_out(xs_step(old(self)@)),
    {
        let mut x = self.0;
        x ^= x >> 12;
        x ^= x << 25;
        x ^= x >> 27;
        self.0 = x;
        x.wrapping_mul(0x2545_F491_4F6C_DD1D)
    }

    /// Uniform-ish in `lo..hi`.
    pub fn range_u32(&mut self, lo: u32, hi: u32) -> (r: u32)
        requires
            lo < hi,
        ensures
            final(self)@ == xs_step(old(self)@),
            r == lo + xs_out(xs_step(old(self)@)) % ((hi - lo) as u64),
            lo <= r < hi,
    {
        let v = self.next_u64() % ((hi - lo) as u64);
        lo + v as u32
    }

    /// True with probability `p53 / 2^53`: the top 53 bits of a draw, read
    /// as a fraction of one, fall below `p53 / 2^53`.
    pub fn chance(&mut self, p53: u64) -> (r: bool)
        ensures
            final(self)@ == xs_step(old(self)@),
            r == ((xs_out(xs_step(old(self)@)) >> 11u64) < p53),
    {
        (self.next_u64() >> 11) < p53
    }

    /// One element of a non-empty slice.
    pub fn pick<'a, T>(&mut self, xs: &'a [T]) -> (r: &'a T)
        requires
            xs@.len() > 0,
        ensures
            final(self)@ == xs_step(old(self)@),
            *r == xs@[(xs_out(xs_step(old(self)@)) % (xs@.len() as u64)) as int],
    {
        let n = xs.len() as u64;
        let i = (self.next_u64() % n) as usize;
        &xs[i]
    }
}

// ------------------------------------------------------------ decimation

/// `x` is a whole multiple of `t`.
pub open spec fn is_multiple(x: nat, t: nat) -> bool {
    if t == 0 {
        x == 0
    } else {
        x % t == 0
    }
}

/// A factor `f` can be taken from `rate`: it divides it and leaves a rate
/// that is still a whole multiple of `target`.
pub open spec fn fits(rate: nat, f: nat, target: nat) -> bool {
    rate % f == 0 && rate / f >= target && is_multiple(rate / f, target)
}

/// The first of 5, 4, 3, 2 that fits (0: none).
pub open spec fn pick_factor(rate: nat, target: nat) -> nat {
    if fits(rate, 5, target) {
        5
    } else if fits(rate, 4, target) {
        4
    } else if fits(rate, 3, target) {
        3
    } else if fits(rate, 2, target) {
        2
    } else {
        0
    }
}

pub open spec fn divided(rate: nat, f: nat) -> nat {
    if f == 5 {
        rate / 5
    } else if f == 4 {
        rate / 4
    } else if f == 3 {
        rate / 3
    } else {
        rate / 2
    }
}

/// Greedy decimation plan from `rate` down to exactly `target`.
pub open spec fn plan(rate: nat, target: nat) -> Option<Seq<usize>>
    decreases rate,
{
    if rate <= target {
        if rate == target {
            Some(seq![])
        } else {
            None
        }
    } else {
        let f = pick_factor(rate, target);
        if f == 0 {
            None
        } else {
            match plan(divided(rate, f), target) {
                Some(p) => Some(seq![f as usize] + p),
                None => None,
            }
        }
    }
}

pub open spec fn product(p: Seq<usize>) -> nat
    decreases p.len(),
{
    if p.len() == 0 {
        1
    } else {
        (p[0] as nat) * product(p.skip(1))
    }
}

/// A plan multiplies back to the input rate, with factors from 2 to 5.
pub proof fn lemma_plan_product(rate: nat, target: nat)
    ensures
        plan(rate, target) matches Some(p) ==> {
            &&& product(p) * target == rate
            &&& forall|i: int| 0 <= i < p.len() ==> 2 <= #[trigger] p[i] <= 5
        },
    decreases rate,
{
    if rate <= target {
        if rate == target {
            let e = Seq::<usize>::empty();
            assert(product(e) == 1);
            assert(product(e) * target == target) by (nonlinear_arith)
                requires
                    product(e) == 1,
            ;
            assert(plan(rate, target) == Some(e));
        }
    } else {
        let f = pick_factor(rate, target);
        if f != 0 {
            lemma_plan_product(divided(rate, f), target);
            if let Some(q) = plan(divided(rate, f), target) {
                let p = seq![f as usize] + q;
                assert(p.skip(1) == q);
                let d = divided(rate, f);
                if f == 5 {
                    assert(d * 5 == rate);
                } else if f == 4 {
                    assert(d * 4 == rate);
                } else if f == 3 {
                    assert(d * 3 == rate);
                } else {
                    assert(d * 2 == rate);
                }
                assert(product(p) == f * product(q));
                assert(product(q) * target == d);
                assert(product(p) * target == f * (product(q) * target)) by (nonlinear_arith)
                    requires
                        product(p) == f * product(q),
                ;
                assert(f * d == d * f) by (nonlinear_arith);
                assert(plan(rate, target) == Some(p));
                assert(product(p) * target == rate);
                assert forall|i: int| 0 <= i < p.len() implies 2 <= #[trigger] p[i] <= 5 by {
                    if i > 0 {
                        assert(p[i] == q[i - 1]);
                    }
                }
            }
        }
    }
}

fn fits_of(rate: u32, f: u32, target: u32) -> (b: bool)
    requires
        f > 0,
    ensures
        b == fits(rate as nat, f as nat, target as nat),
{
    rate % f == 0 && rate / f >= target && if target == 0 {
        rate / f == 0
    } else {
        (rate / f) % target == 0
    }
}

/// Pick integer decimation factors from `in_rate` down to exactly `target`:
/// greedily the largest of 5, 4, 3, 2 that keeps the remaining rate a
/// whole multiple of `target`.
pub fn decim_factors(in_rate: u32, target: u32) -> (r: Option<Vec<usize>>)
    ensures
        r matches Some(v) ==> plan(in_rate as nat, target as nat) == Some(v@),
        r is None ==> plan(in_rate as nat, target as nat) is None,
{
    let mut rate = in_rate;
    let mut out: Vec<usize> = Vec::new();
    while rate > target
        invariant
            plan(in_rate as nat, target as nat) == match plan(rate as nat, target as nat) {
                Some(p) => Some(out@ + p),
                None => None,
            },
        decreases rate,
    {
        let picked: u32 = if fits_of(rate, 5, target) {
            5
        } else if fits_of(rate, 4, target) {
            4
        } else if fits_of(rate, 3, target) {
            3
        } else if fits_of(rate, 2, target) {
            2
        } else {
            0
        };
        assert(picked == pick_factor(rate as nat, target as nat));
        if picked == 0 {
            return None;
        }
        let next = if picked == 5 {
            rate / 5
        } else if picked == 4 {
            rate / 4
        } else if picked == 3 {
            rate / 3
        } else {
            rate / 2
        };
        assert(next == divided(rate as nat, picked as nat));
        proof {
            match plan(next as nat, target as nat) {
                Some(p) => {
                    assert(out@.push(picked as usize) + p == out@ + (seq![picked as usize] + p));
                },
                None => {},
            }
        }
        out.push(picked as usize);
        rate = next;
    }
    if rate == target {
        assert(out@ + Seq::<usize>::empty() == out@);
        Some(out)
    } else {
        None
    }
}

} // verus!
