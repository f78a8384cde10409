use vstd::prelude::*;

verus! {

use vstd::arithmetic::div_mod::{lemma_div_is_ordered, lemma_div_multiples_vanish, lemma_div_pos_is_pos};
use vstd::arithmetic::mul::{lemma_mul_inequality, lemma_mul_upper_bound};
use crate::UNIT;
use crate::record::{EmotionRecord, wf_record, spec_valid};

/// Fixed-point weight scale for the exponential recency decay: one unit
/// is a millionth, so `1_000_000` stands for the weight `1.0`.
pub const DECAY_ONE: u64 = 1_000_000;

/// One decay step, `exp(-0.1)` in millionths.
pub const DECAY_STEP: u64 = 904_837;

/// Numeric score of an emotion label, on the 1..=10 scale.
pub open spec fn score_of(e: Seq<char>) -> int {
    if e == "happy"@ {
        10
    } else if e == "calm"@ {
        7
    } else if e == "neutral"@ {
        5
    } else if e == "worried"@ {
        3
    } else if e == "sad"@ {
        2
    } else if e == "angry"@ {
        1
    } else if e == "tired"@ {
        4
    } else {
        5
    }
}

/// Maps an emotion label to its numeric score: happy is the best mood
/// and angry the worst; labels outside the table count as neutral.
pub fn emotion_to_score(emotion: &String) -> (score: u32)
    ensures
        score == score_of(emotion@),
        1 <= score <= 10,
{
    if *emotion == String::from_str("happy") {
        10
    } else if *emotion == String::from_str("calm") {
        7
    } else if *emotion == String::from_str("neutral") {
        5
    } else if *emotion == String::from_str("worried") {
        3
    } else if *emotion == String::from_str("sad") {
        2
    } else if *emotion == String::from_str("angry") {
        1
    } else if *emotion == String::from_str("tired") {
        4
    } else {
        5
    }
}

/// The subsequence of records that count for analysis, in input order.
pub open spec fn valid_of(s: Seq<EmotionRecord>) -> Seq<EmotionRecord>
    decreases s.len(),
{
    if s.len() == 0 {
        Seq::empty()
    } else if spec_valid(s.first()) {
        seq![s.first()] + valid_of(s.drop_first())
    } else {
        valid_of(s.drop_first())
    }
}

pub open spec fn wf_all(s: Seq<EmotionRecord>) -> bool {
    forall|i: int| 0 <= i < s.len() ==> wf_record(#[trigger] s[i])
}

/// Score of the second channel; neutral when that channel is absent.
pub open spec fn sec_score(r: EmotionRecord) -> int {
    match r.deepface_emotion {
        Some(e) => score_of(e@),
        None => 5,
    }
}

/// Confidence of the second channel; zero when it is absent.
pub open spec fn sec_conf(r: EmotionRecord) -> int {
    match r.deepface_confidence {
        Some(c) => c as int,
        None => 0,
    }
}

/// A record's confidence for weighting: the larger of the two channels'.
pub open spec fn conf_of(r: EmotionRecord) -> int {
    if r.fer_confidence as int >= sec_conf(r) {
        r.fer_confidence as int
    } else {
        sec_conf(r)
    }
}

/// Whether both channels report the identical label.
pub open spec fn channels_agree(r: EmotionRecord) -> bool {
    match r.deepface_emotion {
        Some(e) => e@ == r.fer_emotion@,
        None => false,
    }
}

/// Confidence-weighted blend of the two channels' scores, in
/// ten-thousandths of a score point: the weighted average of the two
/// channel scores when some confidence is present, neutral `5.0`
/// otherwise, plus a `0.5` consistency bonus when the channels agree,
/// capped at `10.0`.
pub open spec fn fused_score(r: EmotionRecord) -> int {
    let s1 = score_of(r.fer_emotion@);
    let s2 = sec_score(r);
    let c1 = r.fer_confidence as int;
    let c2 = sec_conf(r);
    let base = if c1 + c2 > 0 {
        (s1 * c1 + s2 * c2) * (UNIT as int) / (c1 + c2)
    } else {
        5 * (UNIT as int)
    };
    let bonus: int = if channels_agree(r) {
        5_000
    } else {
        0
    };
    if base + bonus > 100_000 {
        100_000
    } else {
        base + bonus
    }
}

/// Division keeps bounds that hold as multiples of the divisor.
proof fn lemma_div_bounds(s: int, w: int, lo: int, hi: int)
    requires
        w > 0,
        lo * w <= s,
        s <= hi * w,
    ensures
        lo <= s / w <= hi,
{
    lemma_div_is_ordered(lo * w, s, w);
    lemma_div_is_ordered(s, hi * w, w);
    lemma_div_multiples_vanish(lo, w);
    lemma_div_multiples_vanish(hi, w);
    assert(lo * w == w * lo) by (nonlinear_arith);
    assert(hi * w == w * hi) by (nonlinear_arith);
}

/// A well-formed record's fused score lies in `[1.0, 10.0]`.
pub proof fn lemma_fused_bounds(r: EmotionRecord)
    requires
        wf_record(r),
    ensures
        10_000 <= fused_score(r) <= 100_000,
{
    let s1 = score_of(r.fer_emotion@);
    let s2 = sec_score(r);
    let c1 = r.fer_confidence as int;
    let c2 = sec_conf(r);
    assert(1 <= s1 <= 10);
    assert(1 <= s2 <= 10);
    if c1 + c2 > 0 {
        let t = c1 + c2;
        assert(s1 * c1 >= c1 && s1 * c1 <= 10 * c1) by (nonlinear_arith)
            requires 1 <= s1 <= 10 && c1 >= 0;
        assert(s2 * c2 >= c2 && s2 * c2 <= 10 * c2) by (nonlinear_arith)
            requires 1 <= s2 <= 10 && c2 >= 0;
        let x = (s1 * c1 + s2 * c2) * (UNIT as int);
        assert(x >= t * (UNIT as int) && x <= (10 * t) * (UNIT as int)) by (nonlinear_arith)
            requires
                s1 * c1 + s2 * c2 >= t,
                s1 * c1 + s2 * c2 <= 10 * t,
                x == (s1 * c1 + s2 * c2) * (UNIT as int);
        assert(t * (UNIT as int) == 10_000 * t) by (nonlinear_arith);
        assert((10 * t) * (UNIT as int) == 100_000 * t) by (nonlinear_arith);
        lemma_div_bounds(x, t, 10_000, 100_000);
    }
}

/// Computes a record's fused score, in ten-thousandths of a score point.
pub fn fused_score_exec(r: &EmotionRecord) -> (f: u64)
    requires
        wf_record(*r),
    ensures
        f == fused_score(*r),
        10_000 <= f <= 100_000,
{
    proof {
        lemma_fused_bounds(*r);
    }
    let s1: u64 = emotion_to_score(&r.fer_emotion) as u64;
    let s2: u64 = match &r.deepface_emotion {
        Some(e) => emotion_to_score(e) as u64,
        None => 5,
    };
    let c1: u64 = r.fer_confidence;
    let c2: u64 = match r.deepface_confidence {
        Some(c) => c,
        None => 0,
    };
    let base: u64 = if c1 + c2 > 0 {
        proof {
            let t = c1 as int + c2 as int;
            assert((s1 as int) * (c1 as int) <= 10 * (c1 as int)
                && (s2 as int) * (c2 as int) <= 10 * (c2 as int)) by (nonlinear_arith)
                requires s1 <= 10 && s2 <= 10 && c1 >= 0 && c2 >= 0;
            assert((s1 * c1 + s2 * c2) as int * (UNIT as int) <= (10 * t) * (UNIT as int)) by (nonlinear_arith)
                requires (s1 * c1 + s2 * c2) as int <= 10 * t && t >= 0;
            lemma_div_pos_is_pos((s1 * c1 + s2 * c2) as int * (UNIT as int), t);
            lemma_div_is_ordered(
                (s1 * c1 + s2 * c2) as int * (UNIT as int),
                (10 * t) * (UNIT as int),
                t,
            );
            assert((10 * t) * (UNIT as int) / t == 100_000) by (nonlinear_arith)
                requires t > 0;
        }
        (s1 * c1 + s2 * c2) * (UNIT as u64) / (c1 + c2)
    } else {
        50_000
    };
    let bonus: u64 = match &r.deepface_emotion {
        Some(e) => if *e == r.fer_emotion {
            5_000
        } else {
            0
        },
        None => 0,
    };
    let f = base + bonus;
    if f > 100_000 {
        100_000
    } else {
        f
    }
}

/// Recency weight of a record that lies `k` valid records before the most
/// recent one: `exp(-0.1 * k)` in millionths, evaluated step by step in
/// fixed point.
pub open spec fn decay_weight(k: nat) -> int
    decreases k,
{
    if k == 0 {
        DECAY_ONE as int
    } else {
        decay_weight((k - 1) as nat) * (DECAY_STEP as int) / (DECAY_ONE as int)
    }
}

pub proof fn lemma_decay_bounds(k: nat)
    ensures
        0 <= decay_weight(k) <= DECAY_ONE as int,
    decreases k,
{
    if k > 0 {
        lemma_decay_bounds((k - 1) as nat);
        let d = decay_weight((k - 1) as nat);
        lemma_div_pos_is_pos(d * (DECAY_STEP as int), DECAY_ONE as int);
        assert(d * (DECAY_STEP as int) <= (DECAY_ONE as int) * (DECAY_ONE as int)) by (nonlinear_arith)
            requires 0 <= d <= DECAY_ONE as int;
        lemma_div_is_ordered(
            d * (DECAY_STEP as int),
            (DECAY_ONE as int) * (DECAY_ONE as int),
            DECAY_ONE as int,
        );
        lemma_div_multiples_vanish(DECAY_ONE as int, DECAY_ONE as int);
    }
}

/// Sum of `fused score * (decay weight * confidence)` over a sequence of
/// valid records, the front record carrying the oldest (smallest) weight.
pub open spec fn wsum(f: Seq<EmotionRecord>) -> int
    decreases f.len(),
{
    if f.len() == 0 {
        0
    } else {
        fused_score(f.first()) * (decay_weight((f.len() - 1) as nat) * conf_of(f.first()))
            + wsum(f.drop_first())
    }
}

/// Sum of `decay weight * confidence` over the same records.
pub open spec fn wtot(f: Seq<EmotionRecord>) -> int
    decreases f.len(),
{
    if f.len() == 0 {
        0
    } else {
        decay_weight((f.len() - 1) as nat) * conf_of(f.first()) + wtot(f.drop_first())
    }
}

/// Largest fused score in the sequence; zero when it is empty.
pub open spec fn peak_of(f: Seq<EmotionRecord>) -> int
    decreases f.len(),
{
    if f.len() == 0 {
        0
    } else if fused_score(f.first()) >= peak_of(f.drop_first()) {
        fused_score(f.first())
    } else {
        peak_of(f.drop_first())
    }
}

/// The composite emotion index over a batch of records, in
/// ten-thousandths of a point on the 1..=10 scale: the decay- and
/// confidence-weighted average of the valid records' fused scores
/// (weight 6), the peak fused score (weight 2) and the most recent
/// fused score (weight 2), clamped to `[1.0, 10.0]`. A batch without
/// valid records yields the neutral `5.0`.
pub open spec fn emotion_index_spec(s: Seq<EmotionRecord>) -> int {
    let f = valid_of(s);
    if f.len() == 0 {
        50_000
    } else {
        let avg = if wtot(f) > 0 {
            wsum(f) / wtot(f)
        } else {
            50_000
        };
        let composite = (6 * avg + 2 * peak_of(f) + 2 * fused_score(f.last())) / 10;
        if composite < 10_000 {
            10_000
        } else if composite > 100_000 {
            100_000
        } else {
            composite
        }
    }
}

/// Computes the composite emotion index of a batch of observations, in
/// ten-thousandths of a point: `43_700` stands for an index of `4.37`.
/// The batch is processed in the order given, which callers should keep
/// chronological for the intended decay semantics.
pub fn calculate_emotion_index(records: &Vec<EmotionRecord>) -> (idx: u32)
    requires
        wf_all(records@),
    ensures
        idx == emotion_index_spec(records@),
        10_000 <= idx <= 100_000,
{
    let n = records.len();
    let mut j: usize = n;
    let mut k: usize = 0;
    let mut w: u64 = DECAY_ONE;
    let mut acc_s: u128 = 0;
    let mut acc_w: u128 = 0;
    let mut peak: u64 = 0;
    let mut fin: u64 = 0;
    while j > 0
        invariant
            j <= n == records@.len(),
            wf_all(records@),
            k == valid_of(records@.skip(j as int)).len(),
            k <= n - j,
            w == decay_weight(k as nat),
            acc_s == wsum(valid_of(records@.skip(j as int))),
            acc_w == wtot(valid_of(records@.skip(j as int))),
            peak == peak_of(valid_of(records@.skip(j as int))),
            k > 0 ==> fin == fused_score(valid_of(records@.skip(j as int)).last()),
            k > 0 ==> 10_000 <= fin <= 100_000,
            k > 0 ==> 10_000 <= peak <= 100_000,
            k == 0 ==> peak == 0,
            acc_w <= k * 10_000_000_000,
            10_000 * acc_w <= acc_s,
            acc_s <= 100_000 * acc_w,
        decreases j,
    {
        j = j - 1;
        let ghost suff = records@.skip(j as int);
        let ghost rest = records@.skip(j as int + 1);
        proof {
            assert(suff.len() > 0);
            assert(suff.first() == records@[j as int]);
            assert(suff.drop_first() =~= rest);
        }
        let r = &records[j];
        if r.is_valid() {
            proof {
                assert(valid_of(suff) == seq![records@[j as int]] + valid_of(rest));
                assert(valid_of(suff).first() == records@[j as int]);
                assert(valid_of(suff).drop_first() =~= valid_of(rest));
                assert(valid_of(suff).len() == 1 + valid_of(rest).len());
                lemma_decay_bounds(k as nat);
                if k > 0 {
                    assert(valid_of(suff).last() == valid_of(rest).last());
                }
            }
            let f = fused_score_exec(r);
            let c1: u64 = r.fer_confidence;
            let c2: u64 = match r.deepface_confidence {
                Some(c) => c,
                None => 0,
            };
            let conf: u64 = if c1 >= c2 {
                c1
            } else {
                c2
            };
            proof {
                lemma_mul_upper_bound(w as int, DECAY_ONE as int, conf as int, UNIT as int);
            }
            let cw: u64 = w * conf;
            proof {
                lemma_mul_upper_bound(f as int, 100_000, cw as int, 10_000_000_000);
                lemma_mul_inequality(10_000, f as int, cw as int);
                lemma_mul_inequality(f as int, 100_000, cw as int);
            }
            acc_s = acc_s + (f as u128) * (cw as u128);
            acc_w = acc_w + cw as u128;
            if f > peak {
                peak = f;
            }
            if k == 0 {
                fin = f;
            }
            k = k + 1;
            w = w * DECAY_STEP / DECAY_ONE;
        } else {
            proof {
                assert(valid_of(suff) == valid_of(rest));
            }
        }
    }
    proof {
        assert(records@.skip(0) =~= records@);
    }
    if k == 0 {
        50_000
    } else {
        let avg: u128 = if acc_w > 0 {
            proof {
                lemma_div_bounds(acc_s as int, acc_w as int, 10_000, 100_000);
            }
            acc_s / acc_w
        } else {
            50_000
        };
        let composite: u128 = (6 * avg + 2 * (peak as u128) + 2 * (fin as u128)) / 10;
        let clamped: u128 = if composite < 10_000 {
            10_000
        } else if composite > 100_000 {
            100_000
        } else {
            composite
        };
        clamped as u32
    }
}

/// A record's stress-side score: categorical score of the mapped emotion
/// weighted by the record's confidence, in ten-thousandths of a point.
pub open spec fn weighted_score(r: EmotionRecord) -> int {
    score_of(r.mapped_emotion@) * conf_of(r)
}

pub proof fn lemma_weighted_score_bounds(r: EmotionRecord)
    requires
        wf_record(r),
    ensures
        0 <= weighted_score(r) <= 100_000,
{
    lemma_mul_upper_bound(score_of(r.mapped_emotion@), 10, conf_of(r), UNIT as int);
    assert(score_of(r.mapped_emotion@) * conf_of(r) >= 0) by (nonlinear_arith)
        requires score_of(r.mapped_emotion@) >= 0 && conf_of(r) >= 0;
}

/// Sum of the weighted scores over a sequence of valid records.
pub open spec fn ws_sum(f: Seq<EmotionRecord>) -> int
    decreases f.len(),
{
    if f.len() == 0 {
        0
    } else {
        weighted_score(f.first()) + ws_sum(f.drop_first())
    }
}

/// Sum of squared deviations of the weighted scores from `mean`.
pub open spec fn sqdev_sum(f: Seq<EmotionRecord>, mean: int) -> int
    decreases f.len(),
{
    if f.len() == 0 {
        0
    } else {
        (weighted_score(f.first()) - mean) * (weighted_score(f.first()) - mean)
            + sqdev_sum(f.drop_first(), mean)
    }
}

/// How many weighted scores fall below the neutral `5.0`.
pub open spec fn neg_count(f: Seq<EmotionRecord>) -> int
    decreases f.len(),
{
    if f.len() == 0 {
        0
    } else {
        (if weighted_score(f.first()) < 50_000 {
            1int
        } else {
            0int
        }) + neg_count(f.drop_first())
    }
}

/// The integer square root: the largest `r` with `r * r <= n`.
pub open spec fn sqrt_floor(n: nat) -> nat
    decreases n,
{
    if n == 0 {
        0
    } else {
        let r = sqrt_floor((n - 1) as nat);
        if (r + 1) * (r + 1) <= n {
            r + 1
        } else {
            r
        }
    }
}

pub proof fn lemma_sqrt_floor_props(n: nat)
    ensures
        sqrt_floor(n) * sqrt_floor(n) <= n,
        n < (sqrt_floor(n) + 1) * (sqrt_floor(n) + 1),
    decreases n,
{
    if n > 0 {
        lemma_sqrt_floor_props((n - 1) as nat);
        let r = sqrt_floor((n - 1) as nat);
        assert(r * r <= n - 1 && n - 1 < (r + 1) * (r + 1));
        if (r + 1) * (r + 1) <= n {
            assert(sqrt_floor(n) == r + 1);
            assert(n == (r + 1) * (r + 1));
            assert(n < (sqrt_floor(n) + 1) * (sqrt_floor(n) + 1)) by (nonlinear_arith)
                requires
                    n == (r + 1) * (r + 1),
                    sqrt_floor(n) == r + 1,
                    r >= 0;
        } else {
            assert(sqrt_floor(n) == r);
            assert(n < (sqrt_floor(n) + 1) * (sqrt_floor(n) + 1));
        }
    } else {
        assert(n == 0);
        assert(sqrt_floor(0) == 0);
        assert(n < (sqrt_floor(n) + 1) * (sqrt_floor(n) + 1)) by (nonlinear_arith)
            requires
                n == 0,
                sqrt_floor(n) == 0;
    }
}

pub proof fn lemma_sqrt_floor_unique(n: nat, r: nat)
    requires
        r * r <= n,
        n < (r + 1) * (r + 1),
    ensures
        r == sqrt_floor(n),
{
    lemma_sqrt_floor_props(n);
    let s = sqrt_floor(n);
    assert(r == s) by (nonlinear_arith)
        requires
            r * r <= n,
            n < (r + 1) * (r + 1),
            s * s <= n,
            n < (s + 1) * (s + 1);
}

/// Computes the integer square root by bisection.
pub fn isqrt(v: u64) -> (r: u64)
    ensures
        r == sqrt_floor(v as nat),
        r * r <= v,
{
    let mut lo: u64 = 0;
    let mut hi: u64 = 4_294_967_296;
    proof {
        assert((v as int) < (hi as int) * (hi as int)) by (nonlinear_arith)
            requires hi == 4_294_967_296 && v <= u64::MAX;
    }
    while lo + 1 < hi
        invariant
            lo < hi <= 4_294_967_296,
            (lo as int) * (lo as int) <= v as int,
            (v as int) < (hi as int) * (hi as int),
        decreases hi - lo,
    {
        let mid = lo + (hi - lo) / 2;
        proof {
            lemma_mul_upper_bound(mid as int, 4_294_967_295, mid as int, 4_294_967_295);
        }
        if mid * mid <= v {
            lo = mid;
        } else {
            hi = mid;
        }
    }
    proof {
        lemma_sqrt_floor_unique(v as nat, lo as nat);
    }
    lo
}

/// The stress level over a batch of records, in ten-thousandths of a
/// point on the 0..=100 scale. It adds a low-mood component (how far the
/// mean weighted score falls below the best mood, at most `40`), a
/// volatility component (ten times the standard deviation of the
/// weighted scores, at most `30`) and a negativity component (the
/// fraction of weighted scores below neutral, scaled to at most `30`),
/// clamped to `[0, 100]`. A batch without valid records yields the
/// neutral-moderate `50.0`.
pub open spec fn stress_spec(s: Seq<EmotionRecord>) -> int {
    let f = valid_of(s);
    let n = f.len() as int;
    if n == 0 {
        500_000
    } else {
        let mean = ws_sum(f) / n;
        let var = sqdev_sum(f, mean) / n;
        let std = sqrt_floor(var as nat) as int;
        let low0 = (100_000 - mean) * 40 / 9;
        let low = if low0 < 0 {
            0
        } else if low0 > 400_000 {
            400_000
        } else {
            low0
        };
        let vol = if std * 10 > 300_000 {
            300_000
        } else {
            std * 10
        };
        let neg = neg_count(f) * 300_000 / n;
        let total = low + vol + neg;
        if total < 0 {
            0
        } else if total > 1_000_000 {
            1_000_000
        } else {
            total
        }
    }
}

/// Computes the stress level of a batch of observations, in
/// ten-thousandths of a point: `375_000` stands for a stress of `37.5`.
pub fn calculate_stress_level(records: &Vec<EmotionRecord>) -> (stress: u32)
    requires
        wf_all(records@),
    ensures
        stress == stress_spec(records@),
        stress <= 1_000_000,
{
    let n = records.len();
    // First pass: count the valid records, sum their weighted scores and
    // count the ones below neutral.
    let mut j: usize = n;
    let mut k: usize = 0;
    let mut sum: u128 = 0;
    let mut negc: usize = 0;
    while j > 0
        invariant
            j <= n == records@.len(),
            wf_all(records@),
            k == valid_of(records@.skip(j as int)).len(),
            k <= n - j,
            sum == ws_sum(valid_of(records@.skip(j as int))),
            negc == neg_count(valid_of(records@.skip(j as int))),
            negc <= k,
            sum <= 100_000 * k,
        decreases j,
    {
        j = j - 1;
        let ghost suff = records@.skip(j as int);
        let ghost rest = records@.skip(j as int + 1);
        proof {
            assert(suff.first() == records@[j as int]);
            assert(suff.drop_first() =~= rest);
        }
        let r = &records[j];
        if r.is_valid() {
            proof {
                assert(valid_of(suff) == seq![records@[j as int]] + valid_of(rest));
                assert(valid_of(suff).first() == records@[j as int]);
                assert(valid_of(suff).drop_first() =~= valid_of(rest));
                lemma_weighted_score_bounds(records@[j as int]);
            }
            let ws = weighted_score_exec(r);
            sum = sum + ws as u128;
            if ws < 50_000 {
                negc = negc + 1;
            }
            k = k + 1;
        } else {
            proof {
                assert(valid_of(suff) == valid_of(rest));
            }
        }
    }
    proof {
        assert(records@.skip(0) =~= records@);
    }
    if k == 0 {
        return 500_000;
    }
    let ghost f = valid_of(records@);
    proof {
        lemma_div_bounds(sum as int, k as int, 0, 100_000);
    }
    let mean: u64 = (sum / (k as u128)) as u64;
    // Second pass: sum the squared deviations from the mean.
    let mut j2: usize = n;
    let mut k2: usize = 0;
    let mut sq: u128 = 0;
    while j2 > 0
        invariant
            j2 <= n == records@.len(),
            wf_all(records@),
            mean <= 100_000,
            k2 == valid_of(records@.skip(j2 as int)).len(),
            sq == sqdev_sum(valid_of(records@.skip(j2 as int)), mean as int),
            sq <= 10_000_000_000 * k2,
            k2 <= n - j2,
        decreases j2,
    {
        j2 = j2 - 1;
        let ghost suff = records@.skip(j2 as int);
        let ghost rest = records@.skip(j2 as int + 1);
        proof {
            assert(suff.first() == records@[j2 as int]);
            assert(suff.drop_first() =~= rest);
        }
        let r = &records[j2];
        if r.is_valid() {
            proof {
                assert(valid_of(suff) == seq![records@[j2 as int]] + valid_of(rest));
                assert(valid_of(suff).first() == records@[j2 as int]);
                assert(valid_of(suff).drop_first() =~= valid_of(rest));
                lemma_weighted_score_bounds(records@[j2 as int]);
            }
            let ws = weighted_score_exec(r);
            let d: u64 = if ws >= mean {
                ws - mean
            } else {
                mean - ws
            };
            proof {
                lemma_mul_upper_bound(d as int, 100_000, d as int, 100_000);
                assert((ws as int - mean as int) * (ws as int - mean as int)
                    == (d as int) * (d as int)) by (nonlinear_arith)
                    requires
                        d == if ws >= mean { ws - mean } else { mean - ws };
            }
            sq = sq + (d as u128) * (d as u128);
            k2 = k2 + 1;
        } else {
            proof {
                assert(valid_of(suff) == valid_of(rest));
            }
        }
    }
    proof {
        assert(records@.skip(0) =~= records@);
        lemma_div_bounds(sq as int, k2 as int, 0, 10_000_000_000);
    }
    let var: u64 = (sq / (k2 as u128)) as u64;
    let std: u64 = isqrt(var);
    proof {
        lemma_sqrt_floor_props(var as nat);
        assert(std <= 100_000) by (nonlinear_arith)
            requires (std as int) * (std as int) <= 10_000_000_000;
    }
    let low0: u64 = (100_000 - mean) * 40 / 9;
    let low: u64 = if low0 > 400_000 {
        400_000
    } else {
        low0
    };
    let vol: u64 = if std * 10 > 300_000 {
        300_000
    } else {
        std * 10
    };
    proof {
        lemma_mul_inequality(negc as int, k as int, 300_000);
        lemma_div_is_ordered((negc as int) * 300_000, (k as int) * 300_000, k as int);
        lemma_div_multiples_vanish(300_000, k as int);
        lemma_div_pos_is_pos((negc as int) * 300_000, k as int);
    }
    let neg: u64 = (((negc as u128) * 300_000) / (k as u128)) as u64;
    let total: u64 = low + vol + neg;
    let clamped: u64 = if total > 1_000_000 {
        1_000_000
    } else {
        total
    };
    clamped as u32
}

/// Report of one analysis round. The two levels are rounded to two
/// decimal places at this reporting boundary, so they are carried in
/// hundredths: an `emotion_index` of `437` stands for `4.37`.
pub struct EmotionAnalysis {
    /// Composite emotion index in hundredths of a point, `100..=1000`.
    pub emotion_index: u32,
    /// Stress level in hundredths of a point, `0..=10000`.
    pub stress_level: u32,
    pub total_records: usize,
    pub valid_records: usize,
}

/// Counts the records of a batch that are valid for analysis.
pub fn count_valid(records: &Vec<EmotionRecord>) -> (k: usize)
    ensures
        k == valid_of(records@).len(),
{
    let n = records.len();
    let mut j: usize = n;
    let mut k: usize = 0;
    while j > 0
        invariant
            j <= n == records@.len(),
            k == valid_of(records@.skip(j as int)).len(),
            k <= n - j,
        decreases j,
    {
        j = j - 1;
        let ghost suff = records@.skip(j as int);
        let ghost rest = records@.skip(j as int + 1);
        proof {
            assert(suff.first() == records@[j as int]);
            assert(suff.drop_first() =~= rest);
        }
        let r = &records[j];
        if r.is_valid() {
            proof {
                assert(valid_of(suff) == seq![records@[j as int]] + valid_of(rest));
            }
            k = k + 1;
        } else {
            proof {
                assert(valid_of(suff) == valid_of(rest));
            }
        }
    }
    proof {
        assert(records@.skip(0) =~= records@);
    }
    k
}

/// Runs both engines over one day's records and rounds the results to
/// two decimal places (hundredths) for reporting.
pub fn analyze_today_emotions(records: Vec<EmotionRecord>) -> (a: EmotionAnalysis)
    requires
        wf_all(records@),
    ensures
        a.emotion_index == (emotion_index_spec(records@) + 50) / 100,
        a.stress_level == (stress_spec(records@) + 50) / 100,
        a.total_records == records@.len(),
        a.valid_records == valid_of(records@).len(),
        100 <= a.emotion_index <= 1000,
        a.stress_level <= 10_000,
{
    let total_records = records.len();
    let valid_records = count_valid(&records);
    let emotion_index = calculate_emotion_index(&records);
    let stress_level = calculate_stress_level(&records);
    EmotionAnalysis {
        emotion_index: (emotion_index + 50) / 100,
        stress_level: (stress_level + 50) / 100,
        total_records,
        valid_records,
    }
}

/// Records that never count for analysis leave no valid subsequence.
pub proof fn lemma_valid_of_all_invalid(s: Seq<EmotionRecord>)
    requires
        forall|i: int| 0 <= i < s.len() ==> !spec_valid(#[trigger] s[i]),
    ensures
        valid_of(s) =~= Seq::<EmotionRecord>::empty(),
    decreases s.len(),
{
    if s.len() > 0 {
        assert(!spec_valid(s.first()));
        assert(forall|i: int| 0 <= i < s.drop_first().len()
            ==> !spec_valid(#[trigger] s.drop_first()[i]));
        lemma_valid_of_all_invalid(s.drop_first());
    }
}

/// An empty batch yields the neutral index `5.0` and the
/// neutral-moderate stress `50.0`.
pub proof fn lemma_empty_neutral()
    ensures
        emotion_index_spec(Seq::<EmotionRecord>::empty()) == 50_000,
        stress_spec(Seq::<EmotionRecord>::empty()) == 500_000,
{
}

/// A batch whose records are all invalid (no face, or the subject away)
/// behaves exactly like an empty batch for both engines.
pub proof fn lemma_all_invalid_like_empty(s: Seq<EmotionRecord>)
    requires
        forall|i: int| 0 <= i < s.len() ==> !spec_valid(#[trigger] s[i]),
    ensures
        emotion_index_spec(s) == emotion_index_spec(Seq::<EmotionRecord>::empty()),
        stress_spec(s) == stress_spec(Seq::<EmotionRecord>::empty()),
{
    lemma_valid_of_all_invalid(s);
}

/// Computes a record's stress-side weighted score.
pub fn weighted_score_exec(r: &EmotionRecord) -> (ws: u64)
    requires
        wf_record(*r),
    ensures
        ws == weighted_score(*r),
        ws <= 100_000,
{
    proof {
        lemma_weighted_score_bounds(*r);
    }
    let score: u64 = emotion_to_score(&r.mapped_emotion) as u64;
    let c1: u64 = r.fer_confidence;
    let c2: u64 = match r.deepface_confidence {
        Some(c) => c,
        None => 0,
    };
    let conf: u64 = if c1 >= c2 {
        c1
    } else {
        c2
    };
    score * conf
}

} // verus!
