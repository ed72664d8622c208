//! Static band plan (region-1-flavored, config-extensible) for the scope
//! overlay. Coarse on purpose — orientation, not regulation.

use vstd::prelude::*;

verus! {

#[derive(Clone, Copy, Debug)]
pub struct Band {
    pub from: u64,
    pub to: u64,
    pub label: &'static str,
}

/// The band plan, lowest first.
pub open spec fn spec_bands() -> Seq<Band> {
    seq![
        Band { from: 135_700, to: 137_800, label: "2200m" },
        Band { from: 1_810_000, to: 2_000_000, label: "160m" },
        Band { from: 3_500_000, to: 3_800_000, label: "80m" },
        Band { from: 5_351_500, to: 5_366_500, label: "60m" },
        Band { from: 7_000_000, to: 7_200_000, label: "40m" },
        Band { from: 10_100_000, to: 10_150_000, label: "30m" },
        Band { from: 14_000_000, to: 14_350_000, label: "20m" },
        Band { from: 18_068_000, to: 18_168_000, label: "17m" },
        Band { from: 21_000_000, to: 21_450_000, label: "15m" },
        Band { from: 24_890_000, to: 24_990_000, label: "12m" },
        Band { from: 26_965_000, to: 27_405_000, label: "CB" },
        Band { from: 28_000_000, to: 29_700_000, label: "10m" },
        Band { from: 50_000_000, to: 52_000_000, label: "6m" },
        Band { from: 87_500_000, to: 108_000_000, label: "FM bcast" },
        Band { from: 108_000_000, to: 118_000_000, label: "VOR/ILS" },
        Band { from: 118_000_000, to: 137_000_000, label: "airband" },
        Band { from: 144_000_000, to: 146_000_000, label: "2m" },
        Band { from: 156_000_000, to: 162_050_000, label: "marine" },
        Band { from: 161_975_000, to: 162_025_000, label: "AIS" },
        Band { from: 174_000_000, to: 230_000_000, label: "DAB" },
        Band { from: 430_000_000, to: 440_000_000, label: "70cm" },
        Band { from: 433_050_000, to: 434_790_000, label: "ISM433" },
        Band { from: 446_000_000, to: 446_200_000, label: "PMR446" },
        Band { from: 863_000_000, to: 870_000_000, label: "ISM868" },
        Band { from: 1_090_000_000, to: 1_090_000_001, label: "ADS-B" },
        Band { from: 1_240_000_000, to: 1_300_000_000, label: "23cm" },
    ]
}

/// The band plan, lowest first.
pub fn bands() -> (v: Vec<Band>)
    ensures
        v@ == spec_bands(),
{
    let mut v: Vec<Band> = Vec::new();
    v.push(Band { from: 135_700, to: 137_800, label: "2200m" });
    v.push(Band { from: 1_810_000, to: 2_000_000, label: "160m" });
    v.push(Band { from: 3_500_000, to: 3_800_000, label: "80m" });
    v.push(Band { from: 5_351_500, to: 5_366_500, label: "60m" });
    v.push(Band { from: 7_000_000, to: 7_200_000, label: "40m" });
    v.push(Band { from: 10_100_000, to: 10_150_000, label: "30m" });
    v.push(Band { from: 14_000_000, to: 14_350_000, label: "20m" });
    v.push(Band { from: 18_068_000, to: 18_168_000, label: "17m" });
    v.push(Band { from: 21_000_000, to: 21_450_000, label: "15m" });
    v.push(Band { from: 24_890_000, to: 24_990_000, label: "12m" });
    v.push(Band { from: 26_965_000, to: 27_405_000, label: "CB" });
    v.push(Band { from: 28_000_000, to: 29_700_000, label: "10m" });
    v.push(Band { from: 50_000_000, to: 52_000_000, label: "6m" });
    v.push(Band { from: 87_500_000, to: 108_000_000, label: "FM bcast" });
    v.push(Band { from: 108_000_000, to: 118_000_000, label: "VOR/ILS" });
    v.push(Band { from: 118_000_000, to: 137_000_000, label: "airband" });
    v.push(Band { from: 144_000_000, to: 146_000_000, label: "2m" });
    v.push(Band { from: 156_000_000, to: 162_050_000, label: "marine" });
    v.push(Band { from: 161_975_000, to: 162_025_000, label: "AIS" });
    v.push(Band { from: 174_000_000, to: 230_000_000, label: "DAB" });
    v.push(Band { from: 430_000_000, to: 440_000_000, label: "70cm" });
    v.push(Band { from: 433_050_000, to: 434_790_000, label: "ISM433" });
    v.push(Band { from: 446_000_000, to: 446_200_000, label: "PMR446" });
    v.push(Band { from: 863_000_000, to: 870_000_000, label: "ISM868" });
    v.push(Band { from: 1_090_000_000, to: 1_090_000_001, label: "ADS-B" });
    v.push(Band { from: 1_240_000_000, to: 1_300_000_000, label: "23cm" });
    v
}

/// Does `b` overlap the open range (from, to)?
pub open spec fn overlaps(b: Band, from: u64, to: u64) -> bool {
    b.to > from && b.from < to
}

/// The bands of `bs` that overlap (from, to), in order.
pub open spec fn overlapping(bs: Seq<Band>, from: u64, to: u64) -> Seq<Band>
    decreases bs.len(),
{
    if bs.len() == 0 {
        seq![]
    } else {
        overlapping(bs.drop_last(), from, to) + (if overlaps(bs.last(), from, to) {
            seq![bs.last()]
        } else {
            seq![]
        })
    }
}

/// Bands overlapping [from, to].
pub fn in_range(from: u64, to: u64) -> (r: Vec<Band>)
    ensures
        r@ == overlapping(spec_bands(), from, to),
{
    let all = bands();
    let mut r: Vec<Band> = Vec::new();
    let mut i: usize = 0;
    while i < all.len()
        invariant
            i <= all@.len(),
            all@ == spec_bands(),
            r@ == overlapping(all@.take(i as int), from, to),
        decreases all.len() - i,
    {
        let b = all[i];
        assert(all@.take(i + 1).drop_last() == all@.take(i as int));
        if b.to > from && b.from < to {
            r.push(b);
        } else {
            assert(r@ + Seq::<Band>::empty() == r@);
        }
        i += 1;
    }
    assert(all@.take(all@.len() as int) == all@);
    r
}

/// Every band returned overlaps the range, and every overlapping band of
/// the plan is returned.
pub proof fn lemma_in_range_exact(bs: Seq<Band>, from: u64, to: u64)
    ensures
        forall|b: Band| #[trigger] overlapping(bs, from, to).contains(b) <==> (bs.contains(b) && overlaps(b, from, to)),
    decreases bs.len(),
{
    if bs.len() > 0 {
        let init = bs.drop_last();
        lemma_in_range_exact(init, from, to);
        assert forall|b: Band| overlapping(bs, from, to).contains(b) <==> (bs.contains(b) && overlaps(b, from, to)) by {
            let o = overlapping(init, from, to);
            let tail: Seq<Band> = if overlaps(bs.last(), from, to) { seq![bs.last()] } else { seq![] };
            assert(overlapping(bs, from, to) == o + tail);
            if (o + tail).contains(b) {
                let k = choose|k: int| 0 <= k < (o + tail).len() && (o + tail)[k] == b;
                if k < o.len() {
                    assert(o[k] == b);
                    assert(o.contains(b));
                    assert(init.contains(b));
                    let m = choose|m: int| 0 <= m < init.len() && init[m] == b;
                    assert(bs[m] == b);
                } else {
                    assert(tail[k - o.len()] == b);
                    assert(bs[bs.len() - 1] == b);
                }
            }
            if bs.contains(b) && overlaps(b, from, to) {
                let m = choose|m: int| 0 <= m < bs.len() && bs[m] == b;
                if m < bs.len() - 1 {
                    assert(init[m] == b);
                    assert(init.contains(b));
                    assert(overlapping(init, from, to).contains(b));
                    assert(o.contains(b));
                    let k = choose|k: int| 0 <= k < o.len() && o[k] == b;
                    assert((o + tail)[k] == b);
                } else {
                    assert((o + tail)[o.len() as int] == b);
                }
            }
        }
    }
}

} // verus!
