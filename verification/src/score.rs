//! Fixed-point retrieval scoring: recency decays exponentially with age,
//! importance is normalized to the score scale, relevance is the cosine
//! similarity of embeddings. All scores are integers in units of one
//! trillionth, so one point of the original scale is `SCORE_SCALE`.

use vstd::prelude::*;

use crate::memory::{EMB_MAX_ABS, EMB_MAX_LEN};

verus! {

/// One full score point: scores are fixed point with this denominator.
pub const SCORE_SCALE: i64 = 1000000000000;

/// One importance step (a tenth of a point).
pub const IMP_UNIT: i64 = 100000000000;

/// Per-second retention ratio for the default decay rate of 0.995 per hour:
/// exp(-(1 - 0.995) / 3600) in `SCORE_SCALE` units.
pub const DEFAULT_RETENTION: u64 = 999998611112;

/// Age, in seconds, that a record with an unreadable timestamp is scored at
/// (1000 hours).
pub const FALLBACK_AGE_SECS: u64 = 3600000;

/// Recency after `age` seconds: the scale multiplied by the retention ratio
/// once per second, rounding down each step.
pub open spec fn recency_spec(retention: u64, age: nat) -> nat
    decreases age,
{
    if age == 0 {
        SCORE_SCALE as nat
    } else {
        recency_spec(retention, (age - 1) as nat) * (retention as nat) / (SCORE_SCALE as nat)
    }
}

/// Recency never passes one full point.
pub proof fn lemma_recency_le_scale(retention: u64, age: nat)
    requires
        retention <= SCORE_SCALE as u64,
    ensures
        recency_spec(retention, age) <= SCORE_SCALE as nat,
    decreases age,
{
    if age > 0 {
        lemma_recency_le_scale(retention, (age - 1) as nat);
        let prev = recency_spec(retention, (age - 1) as nat);
        let r = retention as nat;
        let sc = SCORE_SCALE as nat;
        assert(prev * r / sc <= sc) by (nonlinear_arith)
            requires
                prev <= sc,
                r <= sc,
                sc > 0,
        ;
    }
}

/// Once recency hits zero it stays zero.
proof fn lemma_recency_zero_from(retention: u64, a: nat, b: nat)
    requires
        a <= b,
        recency_spec(retention, a) == 0,
    ensures
        recency_spec(retention, b) == 0,
    decreases b - a,
{
    if b > a {
        lemma_recency_zero_from(retention, a, (b - 1) as nat);
        let r = retention as nat;
        assert(0nat * r == 0) by (nonlinear_arith);
    }
}

/// Recency never grows with age.
pub proof fn lemma_recency_monotone(retention: u64, a: nat, b: nat)
    requires
        retention <= SCORE_SCALE as u64,
        a <= b,
    ensures
        recency_spec(retention, b) <= recency_spec(retention, a),
    decreases b - a,
{
    if b > a {
        lemma_recency_monotone(retention, a, (b - 1) as nat);
        let prev = recency_spec(retention, (b - 1) as nat);
        let r = retention as nat;
        let sc = SCORE_SCALE as nat;
        assert(prev * r / sc <= prev) by (nonlinear_arith)
            requires
                r <= sc,
                sc > 0,
        ;
    }
}

/// While recency is still positive, a strictly retaining ratio strictly
/// decreases it with every second of age.
pub proof fn lemma_recency_strict(retention: u64, a: nat, b: nat)
    requires
        retention < SCORE_SCALE as u64,
        a < b,
        recency_spec(retention, a) > 0,
    ensures
        recency_spec(retention, b) < recency_spec(retention, a),
{
    let prev = recency_spec(retention, a);
    let r = retention as nat;
    let sc = SCORE_SCALE as nat;
    assert(prev * r / sc < prev) by (nonlinear_arith)
        requires
            r < sc,
            sc > 0,
            prev > 0,
    ;
    lemma_recency_monotone(retention, a + 1, b);
}

/// Compute the recency score for a record `age_secs` old.
pub fn recency_score(retention: u64, age_secs: u64) -> (r: u64)
    requires
        retention <= SCORE_SCALE as u64,
    ensures
        r as nat == recency_spec(retention, age_secs as nat),
        r <= SCORE_SCALE as u64,
{
    proof {
        lemma_recency_le_scale(retention, age_secs as nat);
    }
    let mut v: u64 = SCORE_SCALE as u64;
    let mut k: u64 = 0;
    while k < age_secs
        invariant
            k <= age_secs,
            retention <= SCORE_SCALE as u64,
            v as nat == recency_spec(retention, k as nat),
            v <= SCORE_SCALE as u64,
        decreases age_secs - k,
    {
        if v == 0 {
            proof {
                lemma_recency_zero_from(retention, k as nat, age_secs as nat);
            }
            return 0;
        }
        proof {
            assert((v as int) * (retention as int) <= (SCORE_SCALE as int) * (SCORE_SCALE as int))
                by (nonlinear_arith)
                requires
                    0 <= v as int <= SCORE_SCALE as int,
                    0 <= retention as int <= SCORE_SCALE as int,
            ;
            assert((v as int) * (retention as int) / (SCORE_SCALE as int) <= SCORE_SCALE as int)
                by (nonlinear_arith)
                requires
                    (v as int) * (retention as int) <= (SCORE_SCALE as int) * (
                    SCORE_SCALE as int),
                    SCORE_SCALE as int > 0,
            ;
        }
        let prod: u128 = (v as u128) * (retention as u128);
        let nv: u64 = (prod / (SCORE_SCALE as u128)) as u64;
        proof {
            let prev = v as nat;
            let r = retention as nat;
            let sc = SCORE_SCALE as nat;
            assert(prev * r / sc <= prev) by (nonlinear_arith)
                requires
                    r <= sc,
                    sc > 0,
            ;
            assert(nv as nat == recency_spec(retention, (k + 1) as nat));
            lemma_recency_le_scale(retention, (k + 1) as nat);
        }
        v = nv;
        k += 1;
    }
    v
}

// ---------------------------------------------------------------------------
// Cosine relevance
// ---------------------------------------------------------------------------

/// Dot product of the first `k` components.
pub open spec fn dot_prefix(a: Seq<i64>, b: Seq<i64>, k: int) -> int
    decreases k,
{
    if k <= 0 {
        0
    } else {
        dot_prefix(a, b, k - 1) + a[k - 1] * b[k - 1]
    }
}

/// Dot product of two equal-length vectors.
pub open spec fn dot_spec(a: Seq<i64>, b: Seq<i64>) -> int {
    dot_prefix(a, b, a.len() as int)
}

/// Squared Euclidean norm.
pub open spec fn norm2_spec(a: Seq<i64>) -> int {
    dot_spec(a, a)
}

/// `r` is the integer square root of `n`.
pub open spec fn is_sqrt(n: int, r: int) -> bool {
    0 <= r && r * r <= n && n < (r + 1) * (r + 1)
}

/// The integer square root.
pub open spec fn spec_isqrt(n: int) -> int {
    choose|r: int| is_sqrt(n, r)
}

/// Every nonnegative integer has an integer square root.
pub proof fn lemma_isqrt_exists(n: int)
    requires
        n >= 0,
    ensures
        is_sqrt(n, spec_isqrt(n)),
    decreases n,
{
    if n == 0 {
        assert(is_sqrt(0, 0));
    } else {
        lemma_isqrt_exists(n - 1);
        let r = spec_isqrt(n - 1);
        if (r + 1) * (r + 1) <= n {
            assert(is_sqrt(n, r + 1)) by (nonlinear_arith)
                requires
                    is_sqrt(n - 1, r),
                    (r + 1) * (r + 1) <= n,
            ;
        } else {
            assert(is_sqrt(n, r));
        }
    }
    assert(exists|r: int| is_sqrt(n, r));
}

/// The integer square root is unique.
pub proof fn lemma_isqrt_unique(n: int, r1: int, r2: int)
    requires
        is_sqrt(n, r1),
        is_sqrt(n, r2),
    ensures
        r1 == r2,
{
    assert(r1 == r2) by (nonlinear_arith)
        requires
            0 <= r1 && r1 * r1 <= n && n < (r1 + 1) * (r1 + 1),
            0 <= r2 && r2 * r2 <= n && n < (r2 + 1) * (r2 + 1),
    ;
}

/// Binary-search integer square root.
pub fn isqrt(n: u128) -> (r: u128)
    requires
        n < (1u128 << 126),
    ensures
        is_sqrt(n as int, r as int),
{
    let mut lo: u128 = 0;
    let mut hi: u128 = 0x8000_0000_0000_0000u128;
    proof {
        assert(1u128 << 126 == 0x4000_0000_0000_0000_0000_0000_0000_0000u128) by (bit_vector);
        assert(0x8000_0000_0000_0000int * 0x8000_0000_0000_0000int
            == 0x4000_0000_0000_0000_0000_0000_0000_0000int) by (nonlinear_arith);
    }
    while lo + 1 < hi
        invariant
            lo < hi,
            hi <= 0x8000_0000_0000_0000u128,
            (lo as int) * (lo as int) <= n as int,
            (n as int) < (hi as int) * (hi as int),
        decreases hi - lo,
    {
        let mid = lo + (hi - lo) / 2;
        proof {
            assert((mid as int) * (mid as int) < 0x8000_0000_0000_0000int
                * 0x8000_0000_0000_0000int) by (nonlinear_arith)
                requires
                    0 <= (mid as int),
                    (mid as int) < 0x8000_0000_0000_0000int,
            ;
        }
        let sq = mid * mid;
        if sq <= n {
            lo = mid;
        } else {
            hi = mid;
        }
    }
    lo
}

/// A sum of squares is nonnegative.
proof fn lemma_norm2_nonneg(a: Seq<i64>, k: int)
    requires
        0 <= k <= a.len(),
    ensures
        dot_prefix(a, a, k) >= 0,
    decreases k,
{
    if k > 0 {
        lemma_norm2_nonneg(a, k - 1);
        let x = a[k - 1] as int;
        assert(x * x >= 0) by (nonlinear_arith);
    }
}

/// Bound on a dot-product prefix of bounded vectors.
proof fn lemma_dot_prefix_bound(a: Seq<i64>, b: Seq<i64>, k: int)
    requires
        0 <= k <= a.len(),
        k <= b.len(),
        forall|i: int| 0 <= i < a.len() ==> -EMB_MAX_ABS <= #[trigger] a[i] <= EMB_MAX_ABS,
        forall|i: int| 0 <= i < b.len() ==> -EMB_MAX_ABS <= #[trigger] b[i] <= EMB_MAX_ABS,
    ensures
        -k * 1000000000000000000int <= dot_prefix(a, b, k) <= k * 1000000000000000000int,
    decreases k,
{
    if k > 0 {
        lemma_dot_prefix_bound(a, b, k - 1);
        let x = a[k - 1] as int;
        let y = b[k - 1] as int;
        assert(-1000000000000000000int <= x * y <= 1000000000000000000int) by (nonlinear_arith)
            requires
                -1000000000int <= x <= 1000000000int,
                -1000000000int <= y <= 1000000000int,
        ;
    }
}

/// Dot product of two bounded vectors, exactly.
fn dot_product(a: &Vec<i64>, b: &Vec<i64>) -> (r: i128)
    requires
        a@.len() == b@.len() <= EMB_MAX_LEN,
        forall|i: int| 0 <= i < a@.len() ==> -EMB_MAX_ABS <= #[trigger] a@[i] <= EMB_MAX_ABS,
        forall|i: int| 0 <= i < b@.len() ==> -EMB_MAX_ABS <= #[trigger] b@[i] <= EMB_MAX_ABS,
    ensures
        r as int == dot_spec(a@, b@),
        -100000000000000000000000int <= r as int <= 100000000000000000000000int,
{
    let n = a.len();
    let mut acc: i128 = 0;
    let mut k: usize = 0;
    while k < n
        invariant
            k <= n,
            n == a@.len() == b@.len(),
            n <= EMB_MAX_LEN,
            forall|i: int| 0 <= i < a@.len() ==> -EMB_MAX_ABS <= #[trigger] a@[i] <= EMB_MAX_ABS,
            forall|i: int| 0 <= i < b@.len() ==> -EMB_MAX_ABS <= #[trigger] b@[i] <= EMB_MAX_ABS,
            acc as int == dot_prefix(a@, b@, k as int),
            -(k as int) * 1000000000000000000int <= acc as int <= (k as int)
                * 1000000000000000000int,
        decreases n - k,
    {
        proof {
            let x = a@[k as int] as int;
            let y = b@[k as int] as int;
            assert(-1000000000000000000int <= x * y <= 1000000000000000000int)
                by (nonlinear_arith)
                requires
                    -1000000000int <= x <= 1000000000int,
                    -1000000000int <= y <= 1000000000int,
            ;
        }
        acc = acc + (a[k] as i128) * (b[k] as i128);
        k += 1;
    }
    acc
}

/// Cosine similarity in `SCORE_SCALE` units, clamped to one point. Zero when
/// the lengths differ, a vector is empty, or a norm rounds to zero.
pub open spec fn cosine_spec(a: Seq<i64>, b: Seq<i64>) -> int {
    if a.len() != b.len() || a.len() == 0 {
        0
    } else {
        let na = spec_isqrt(norm2_spec(a));
        let nb = spec_isqrt(norm2_spec(b));
        if na == 0 || nb == 0 {
            0
        } else {
            let d = dot_spec(a, b);
            let q = if d >= 0 {
                d * (SCORE_SCALE as int) / (na * nb)
            } else {
                -((-d) * (SCORE_SCALE as int) / (na * nb))
            };
            if q > SCORE_SCALE as int {
                SCORE_SCALE as int
            } else if q < -(SCORE_SCALE as int) {
                -(SCORE_SCALE as int)
            } else {
                q
            }
        }
    }
}

/// Compute the cosine relevance of two embeddings.
pub fn cosine_fixed(a: &Vec<i64>, b: &Vec<i64>) -> (r: i64)
    requires
        a@.len() <= EMB_MAX_LEN,
        b@.len() <= EMB_MAX_LEN,
        forall|i: int| 0 <= i < a@.len() ==> -EMB_MAX_ABS <= #[trigger] a@[i] <= EMB_MAX_ABS,
        forall|i: int| 0 <= i < b@.len() ==> -EMB_MAX_ABS <= #[trigger] b@[i] <= EMB_MAX_ABS,
    ensures
        r as int == cosine_spec(a@, b@),
        -SCORE_SCALE <= r <= SCORE_SCALE,
{
    if a.len() != b.len() || a.len() == 0 {
        return 0;
    }
    let n2a = dot_product(a, a);
    let n2b = dot_product(b, b);
    proof {
        lemma_norm2_nonneg(a@, a@.len() as int);
        lemma_norm2_nonneg(b@, b@.len() as int);
        lemma_isqrt_exists(n2a as int);
        lemma_isqrt_exists(n2b as int);
        assert(1u128 << 126 == 0x4000_0000_0000_0000_0000_0000_0000_0000u128) by (bit_vector);
        assert(100000int * (1000000000int * 1000000000int)
            < 0x4000_0000_0000_0000_0000_0000_0000_0000int) by (nonlinear_arith);
    }
    let na = isqrt(n2a as u128);
    let nb = isqrt(n2b as u128);
    proof {
        lemma_isqrt_unique(n2a as int, na as int, spec_isqrt(n2a as int));
        lemma_isqrt_unique(n2b as int, nb as int, spec_isqrt(n2b as int));
    }
    if na == 0 || nb == 0 {
        return 0;
    }
    proof {
        let c = EMB_MAX_ABS as int;
        let l = EMB_MAX_LEN as int;
        assert((na as int) * (na as int) <= l * (c * c));
        assert((nb as int) * (nb as int) <= l * (c * c));
        assert(na as int <= 1000000000000000int) by (nonlinear_arith)
            requires
                (na as int) * (na as int) <= 100000int * (1000000000int * 1000000000int),
                na as int >= 0,
        ;
        assert(nb as int <= 1000000000000000int) by (nonlinear_arith)
            requires
                (nb as int) * (nb as int) <= 100000int * (1000000000int * 1000000000int),
                nb as int >= 0,
        ;
        assert((na as int) * (nb as int) <= 1000000000000000int * 1000000000000000int)
            by (nonlinear_arith)
            requires
                0 <= na as int <= 1000000000000000int,
                0 <= nb as int <= 1000000000000000int,
        ;
    }
    proof {
        assert(1 <= (na as int) * (nb as int) <= 1000000000000000int * 1000000000000000int)
            by (nonlinear_arith)
            requires
                1 <= na as int <= 1000000000000000int,
                1 <= nb as int <= 1000000000000000int,
        ;
    }
    let denom: i128 = (na as i128) * (nb as i128);
    let d = dot_product(a, b);
    proof {
        let dd = d as int;
        assert(-100000000000000000000000000000000000int <= dd * 1000000000000int
            <= 100000000000000000000000000000000000int) by (nonlinear_arith)
            requires
                -100000000000000000000000int <= dd <= 100000000000000000000000int,
        ;
        if dd < 0 {
            assert((-dd) * 1000000000000int <= 100000000000000000000000000000000000int)
                by (nonlinear_arith)
                requires
                    -100000000000000000000000int <= dd,
            ;
        }
    }
    let q: i128 = if d >= 0 {
        (d * (SCORE_SCALE as i128)) / denom
    } else {
        -(((-d) * (SCORE_SCALE as i128)) / denom)
    };
    let clamped: i128 = if q > SCORE_SCALE as i128 {
        SCORE_SCALE as i128
    } else if q < -(SCORE_SCALE as i128) {
        -(SCORE_SCALE as i128)
    } else {
        q
    };
    clamped as i64
}

/// The full retrieval score of a record: recency plus normalized importance
/// plus relevance.
pub open spec fn score_spec(retention: u64, age: nat, importance: int, relevance: int) -> int {
    recency_spec(retention, age) + importance * (IMP_UNIT as int) + relevance
}

/// Combine the three factors.
pub fn combine_score(recency: u64, importance: i32, relevance: i64) -> (r: i64)
    requires
        recency <= SCORE_SCALE as u64,
        1 <= importance <= 10,
        -SCORE_SCALE <= relevance <= SCORE_SCALE,
    ensures
        r as int == recency + importance * (IMP_UNIT as int) + relevance,
{
    recency as i64 + (importance as i64) * IMP_UNIT + relevance
}

/// With equal importance and equal relevance, the younger record scores
/// strictly higher, as long as its recency has not rounded down to nothing.
pub proof fn lemma_newer_scores_higher(
    retention: u64,
    age_new: nat,
    age_old: nat,
    importance: int,
    relevance: int,
)
    requires
        retention < SCORE_SCALE as u64,
        age_new < age_old,
        recency_spec(retention, age_new) > 0,
    ensures
        score_spec(retention, age_new, importance, relevance) > score_spec(
            retention,
            age_old,
            importance,
            relevance,
        ),
{
    lemma_recency_strict(retention, age_new, age_old);
}

} // verus!
