use vstd::prelude::*;

verus! {

/// Integers `low..=high`, drawn with relative weight `weight`.
#[derive(Debug, Clone, Copy, PartialEq, Eq, Structural)]
pub struct WeightedRange {
    pub low: i16,
    pub high: i16,
    pub weight: u32,
}

/// Ranges a draw can be made from: some range, none empty, and few enough
/// that the total weight fits in an `i64`.
pub open spec fn valid_table(s: Seq<WeightedRange>) -> bool {
    &&& 0 < s.len() <= 0x8000_0000
    &&& forall|k: int| 0 <= k < s.len() ==> s[k].low <= s[k].high
}

pub open spec fn total_weight(s: Seq<WeightedRange>) -> nat
    decreases s.len(),
{
    if s.len() == 0 {
        0
    } else {
        total_weight(s.drop_last()) + s.last().weight as nat
    }
}

/// The index of the range that a roll in `0..total_weight(s)` selects: walking
/// in order, the first whose weight exceeds what is left of the roll; the last
/// range when none does.
pub open spec fn pick_spec(s: Seq<WeightedRange>, roll: int) -> int
    decreases s.len(),
{
    if s.len() <= 1 || roll < s[0].weight {
        0
    } else {
        1 + pick_spec(s.drop_first(), roll - s[0].weight)
    }
}

proof fn lemma_pick_in_bounds(s: Seq<WeightedRange>, roll: int)
    requires
        s.len() > 0,
    ensures
        0 <= pick_spec(s, roll) < s.len(),
    decreases s.len(),
{
    if s.len() > 1 && roll >= s[0].weight {
        lemma_pick_in_bounds(s.drop_first(), roll - s[0].weight);
    }
}

proof fn lemma_total_first(s: Seq<WeightedRange>)
    requires
        s.len() > 0,
    ensures
        total_weight(s) == s[0].weight + total_weight(s.drop_first()),
    decreases s.len(),
{
    if s.len() > 1 {
        lemma_total_first(s.drop_last());
        assert(s.drop_last().drop_first() =~= s.drop_first().drop_last());
    } else {
        assert(s.drop_last() =~= Seq::<WeightedRange>::empty());
        assert(s.drop_first() =~= Seq::<WeightedRange>::empty());
    }
}

/// A roll below the total weight never selects a range of weight zero: such
/// a range is never drawn from while some range has weight.
pub proof fn lemma_zero_weight_never_picked(s: Seq<WeightedRange>, roll: int)
    requires
        0 <= roll < total_weight(s),
    ensures
        0 <= pick_spec(s, roll) < s.len(),
        s[pick_spec(s, roll)].weight > 0,
    decreases s.len(),
{
    lemma_total_first(s);
    if s.len() == 1 {
        assert(s.drop_first() =~= Seq::<WeightedRange>::empty());
    } else if roll >= s[0].weight {
        lemma_zero_weight_never_picked(s.drop_first(), roll - s[0].weight);
    }
}

proof fn lemma_total_bound(s: Seq<WeightedRange>)
    ensures
        total_weight(s) <= s.len() * 0xffff_ffff,
    decreases s.len(),
{
    if s.len() > 0 {
        lemma_total_bound(s.drop_last());
    }
}

/// The index of the range that `roll` selects.
pub fn pick_range(ranges: &Vec<WeightedRange>, roll: u64) -> (i: usize)
    requires
        ranges@.len() > 0,
    ensures
        i == pick_spec(ranges@, roll as int),
        i < ranges@.len(),
{
    let n = ranges.len();
    let mut i: usize = 0;
    let mut rest: u64 = roll;
    proof {
        assert(ranges@.subrange(0, n as int) =~= ranges@);
    }
    while i + 1 < n && rest >= ranges[i].weight as u64
        invariant
            n == ranges@.len(),
            i < n,
            pick_spec(ranges@, roll as int) == i + pick_spec(ranges@.subrange(i as int, n as int), rest as int),
        decreases n - i,
    {
        proof {
            let t = ranges@.subrange(i as int, n as int);
            assert(t.drop_first() =~= ranges@.subrange(i as int + 1, n as int));
        }
        rest = rest - ranges[i].weight as u64;
        i = i + 1;
    }
    proof {
        let t = ranges@.subrange(i as int, n as int);
        lemma_pick_in_bounds(ranges@, roll as int);
        assert(t[0] == ranges@[i as int]);
    }
    i
}

/// The sum of the weights.
pub fn total(ranges: &Vec<WeightedRange>) -> (t: u64)
    requires
        ranges@.len() <= 0x8000_0000,
    ensures
        t == total_weight(ranges@),
        t < 0x8000_0000_0000_0000,
{
    let n = ranges.len();
    let mut t: u64 = 0;
    let mut i: usize = 0;
    while i < n
        invariant
            n == ranges@.len() <= 0x8000_0000,
            i <= n,
            t == total_weight(ranges@.subrange(0, i as int)),
        decreases n - i,
    {
        proof {
            assert(ranges@.subrange(0, i as int + 1).drop_last() =~= ranges@.subrange(0, i as int));
            lemma_total_bound(ranges@.subrange(0, i as int + 1));
            assert(total_weight(ranges@.subrange(0, i as int + 1)) <= (i + 1) * 0xffff_ffff) by (nonlinear_arith)
                requires
                    total_weight(ranges@.subrange(0, i as int + 1)) <= (i + 1) * 0xffff_ffff,
            ;
            assert((i + 1) * 0xffff_ffff <= 0x8000_0000 * 0xffff_ffff) by (nonlinear_arith)
                requires
                    i + 1 <= 0x8000_0000,
            ;
        }
        t = t + ranges[i].weight as u64;
        i = i + 1;
    }
    proof {
        assert(ranges@.subrange(0, n as int) =~= ranges@);
        lemma_total_bound(ranges@);
        assert(n * 0xffff_ffff <= 0x8000_0000 * 0xffff_ffff) by (nonlinear_arith)
            requires
                n <= 0x8000_0000,
        ;
    }
    t
}

/// Relies on rand::random_range: a value drawn uniformly from `low..=high`
/// with the thread-local generator; it panics on an empty range.
#[verifier::external_body]
fn random_between(low: i64, high: i64) -> (r: i64)
    requires
        low <= high,
    ensures
        low <= r <= high,
{
    rand::random_range(low..=high)
}

/// The integer a draw gives for `roll`, once the range has been picked:
/// the range's bounds, for the second uniform draw.
pub open spec fn drawn_from(s: Seq<WeightedRange>, roll: int, r: i16) -> bool {
    let k = pick_spec(s, roll);
    s[k].low <= r <= s[k].high
}

/// Draws a range with probability proportional to its weight (the last one
/// when all weights are zero), then an integer of that range.
pub fn draw(ranges: &Vec<WeightedRange>) -> (r: i16)
    requires
        valid_table(ranges@),
    ensures
        exists|roll: int|
            0 <= roll && (roll < total_weight(ranges@) || roll == 0) && #[trigger] drawn_from(ranges@, roll, r),
{
    let t = total(ranges);
    let roll: u64 = if t == 0 {
        0
    } else {
        random_between(0, (t - 1) as i64) as u64
    };
    let k = pick_range(ranges, roll);
    let range = ranges[k];
    let v = random_between(range.low as i64, range.high as i64) as i16;
    assert(drawn_from(ranges@, roll as int, v));
    v
}

/// The table the game plays with: rare large losses, common small losses
/// and gains, rare large gains. Weights are in thousandths.
pub fn standard_table() -> (t: Vec<WeightedRange>)
    ensures
        valid_table(t@),
        t@ == seq![
            WeightedRange { low: -179i16, high: -178i16, weight: 1u32 },
            WeightedRange { low: -10i16, high: -6i16, weight: 50u32 },
            WeightedRange { low: -5i16, high: -1i16, weight: 250u32 },
            WeightedRange { low: 1i16, high: 7i16, weight: 599u32 },
            WeightedRange { low: 8i16, high: 14i16, weight: 100u32 },
        ],
{
    let t = vec![
        WeightedRange { low: -179i16, high: -178i16, weight: 1u32 },
        WeightedRange { low: -10i16, high: -6i16, weight: 50u32 },
        WeightedRange { low: -5i16, high: -1i16, weight: 250u32 },
        WeightedRange { low: 1i16, high: 7i16, weight: 599u32 },
        WeightedRange { low: 8i16, high: 14i16, weight: 100u32 },
    ];
    assert(t@ =~= seq![
        WeightedRange { low: -179i16, high: -178i16, weight: 1u32 },
        WeightedRange { low: -10i16, high: -6i16, weight: 50u32 },
        WeightedRange { low: -5i16, high: -1i16, weight: 250u32 },
        WeightedRange { low: 1i16, high: 7i16, weight: 599u32 },
        WeightedRange { low: 8i16, high: 14i16, weight: 100u32 },
    ]);
    t
}

} // verus!
