//! Sines and cosines of fixed-point angles.
//!
//! Angles are fixed-point degrees; sines and cosines are carried with thirty
//! fractional bits, so that `TRIG_ONE` stands for 1. An angle is reflected
//! into the first quarter turn and split into the nearest whole degree and
//! what is left, at most half a degree either way. The sine and cosine of
//! the whole degree come from a table; those of the rest come from the first
//! terms of their series; the addition formulas put the two together.
//!
//! What is proved of the result is what can be said in whole numbers: the
//! values at the axes are exact, sine and cosine of one angle lie on the
//! unit circle to within `UNIT_SLACK`, the table holds one half at 30
//! degrees and turns by equal steps from the one axis to the other, and the
//! terms that the series leave out stay below 120 parts in `TRIG_ONE`. The
//! distance to the sine and cosine of real analysis is not itself a
//! statement about integers; `TRIG_ERROR` gives it, the comment there
//! accounts for it, and tests measure it.

use vstd::prelude::*;
use crate::fixed::div_floor;
use crate::fixed::rem_floor;
use crate::fixed::ONE;

verus! {

/// A quarter turn, 90 degrees.
pub const QUARTER_TURN: i64 = 5898240;

/// A half turn, 180 degrees.
pub const HALF_TURN: i64 = 11796480;

/// Three quarters of a turn, 270 degrees.
pub const THREE_QUARTER_TURN: i64 = 17694720;

/// A full turn, 360 degrees.
pub const FULL_TURN: i64 = 23592960;

/// The representation of 1 as a sine or cosine.
pub const TRIG_ONE: i64 = 1073741824;

/// One degree in radians, in units of `1 / TRIG_ONE`.
pub const DEGREE: i64 = 18740330;

/// No sine or cosine is larger in size than this.
pub const TRIG_LIMIT: i64 = 1073741829;

/// How far a sine or cosine lies from the sine or cosine of real analysis
/// at most, in parts of `TRIG_ONE`: under 2^-23. Of the 125 parts, 119 are
/// the next term of the sine series of the rest, a sixth of its cube, and
/// 1 is the next term of the cosine series (`lemma_series_remainders`);
/// the others cover the rounding of the rest, of the two table entries and
/// of the sum that is scaled back.
pub const TRIG_ERROR: i64 = 125;

/// How far the sum of the squares of a sine and a cosine can lie from
/// `TRIG_ONE * TRIG_ONE`: eleven parts in `TRIG_ONE`.
pub const UNIT_SLACK: i64 = 11811160064;

/// The sine of a whole number of degrees between 0 and 90.
#[verifier::opaque]
pub open spec fn sine_entry(d: int) -> int {
    if d == 0 {
        0
    } else if d == 1 {
        18739379
    } else if d == 2 {
        37473049
    } else if d == 3 {
        56195305
    } else if d == 4 {
        74900443
    } else if d == 5 {
        93582766
    } else if d == 6 {
        112236583
    } else if d == 7 {
        130856211
    } else if d == 8 {
        149435979
    } else if d == 9 {
        167970228
    } else if d == 10 {
        186453311
    } else if d == 11 {
        204879599
    } else if d == 12 {
        223243478
    } else if d == 13 {
        241539355
    } else if d == 14 {
        259761657
    } else if d == 15 {
        277904834
    } else if d == 16 {
        295963357
    } else if d == 17 {
        313931728
    } else if d == 18 {
        331804471
    } else if d == 19 {
        349576144
    } else if d == 20 {
        367241333
    } else if d == 21 {
        384794656
    } else if d == 22 {
        402230767
    } else if d == 23 {
        419544355
    } else if d == 24 {
        436730145
    } else if d == 25 {
        453782903
    } else if d == 26 {
        470697435
    } else if d == 27 {
        487468587
    } else if d == 28 {
        504091252
    } else if d == 29 {
        520560366
    } else if d == 30 {
        536870912
    } else if d == 31 {
        553017922
    } else if d == 32 {
        568996477
    } else if d == 33 {
        584801711
    } else if d == 34 {
        600428808
    } else if d == 35 {
        615873009
    } else if d == 36 {
        631129609
    } else if d == 37 {
        646193961
    } else if d == 38 {
        661061475
    } else if d == 39 {
        675727625
    } else if d == 40 {
        690187940
    } else if d == 41 {
        704438018
    } else if d == 42 {
        718473518
    } else if d == 43 {
        732290163
    } else if d == 44 {
        745883746
    } else if d == 45 {
        759250125
    } else if d == 46 {
        772385229
    } else if d == 47 {
        785285058
    } else if d == 48 {
        797945680
    } else if d == 49 {
        810363241
    } else if d == 50 {
        822533958
    } else if d == 51 {
        834454122
    } else if d == 52 {
        846120104
    } else if d == 53 {
        857528349
    } else if d == 54 {
        868675383
    } else if d == 55 {
        879557810
    } else if d == 56 {
        890172315
    } else if d == 57 {
        900515665
    } else if d == 58 {
        910584710
    } else if d == 59 {
        920376381
    } else if d == 60 {
        929887697
    } else if d == 61 {
        939115760
    } else if d == 62 {
        948057759
    } else if d == 63 {
        956710970
    } else if d == 64 {
        965072759
    } else if d == 65 {
        973140576
    } else if d == 66 {
        980911966
    } else if d == 67 {
        988384560
    } else if d == 68 {
        995556083
    } else if d == 69 {
        1002424350
    } else if d == 70 {
        1008987269
    } else if d == 71 {
        1015242840
    } else if d == 72 {
        1021189159
    } else if d == 73 {
        1026824413
    } else if d == 74 {
        1032146887
    } else if d == 75 {
        1037154959
    } else if d == 76 {
        1041847103
    } else if d == 77 {
        1046221891
    } else if d == 78 {
        1050277989
    } else if d == 79 {
        1054014162
    } else if d == 80 {
        1057429273
    } else if d == 81 {
        1060522280
    } else if d == 82 {
        1063292242
    } else if d == 83 {
        1065738315
    } else if d == 84 {
        1067859754
    } else if d == 85 {
        1069655912
    } else if d == 86 {
        1071126243
    } else if d == 87 {
        1072270298
    } else if d == 88 {
        1073087729
    } else if d == 89 {
        1073578288
    } else {
        1073741824
    }
}

/// The angle in `0..FULL_TURN` that points the same way as `angle`.
pub open spec fn normalize_angle(angle: int) -> int {
    angle % (FULL_TURN as int)
}

/// The whole degree nearest to an angle.
pub open spec fn nearest_degree(r: int) -> int {
    (r + ONE / 2) / (ONE as int)
}

/// What is left of an angle beside its nearest whole degree, in radians and
/// in units of `1 / TRIG_ONE`, rounded down.
pub open spec fn small_angle(r: int) -> int {
    ((r - nearest_degree(r) * ONE) * DEGREE) / (ONE as int)
}

/// The cosine of a small angle `x`: `1 - x * x / 2`.
pub open spec fn small_cosine(x: int) -> int {
    TRIG_ONE - (x * x) / (2 * TRIG_ONE)
}

/// The sine of an angle within the first quarter turn, before it is scaled
/// back: sine of the degree times cosine of the rest plus cosine of the
/// degree times sine of the rest, where the sine of the rest is the rest.
pub open spec fn sine_parts(r: int) -> int {
    let d = nearest_degree(r);
    let x = small_angle(r);
    sine_entry(d) * small_cosine(x) + sine_entry(90 - d) * x
}

/// The cosine of an angle within the first quarter turn, before it is
/// scaled back: cosine of the degree times cosine of the rest minus sine of
/// the degree times sine of the rest.
pub open spec fn cosine_parts(r: int) -> int {
    let d = nearest_degree(r);
    let x = small_angle(r);
    sine_entry(90 - d) * small_cosine(x) - sine_entry(d) * x
}

/// The sine of an angle within the first quarter turn.
pub open spec fn quarter_sine(r: int) -> int {
    sine_parts(r) / (TRIG_ONE as int)
}

/// The cosine of an angle within the first quarter turn.
pub open spec fn quarter_cosine(r: int) -> int {
    cosine_parts(r) / (TRIG_ONE as int)
}

/// The sine of any angle, by reflection into the first quarter turn.
#[verifier::opaque]
pub open spec fn sine(angle: int) -> int {
    let a = normalize_angle(angle);
    if a <= QUARTER_TURN {
        quarter_sine(a)
    } else if a <= HALF_TURN {
        quarter_sine(HALF_TURN - a)
    } else if a <= THREE_QUARTER_TURN {
        -quarter_sine(a - HALF_TURN)
    } else {
        -quarter_sine(FULL_TURN - a)
    }
}

/// The cosine of any angle, by reflection into the first quarter turn.
#[verifier::opaque]
pub open spec fn cosine(angle: int) -> int {
    let a = normalize_angle(angle);
    if a <= QUARTER_TURN {
        quarter_cosine(a)
    } else if a <= HALF_TURN {
        -quarter_cosine(HALF_TURN - a)
    } else if a <= THREE_QUARTER_TURN {
        -quarter_cosine(a - HALF_TURN)
    } else {
        quarter_cosine(FULL_TURN - a)
    }
}

/// The table runs from 0 to `TRIG_ONE`, holds one half at 30 degrees, and
/// pairs each sine with a cosine on the unit circle to within two parts in
/// `TRIG_ONE`.
pub proof fn lemma_table(d: int)
    requires
        0 <= d <= 90,
    ensures
        0 <= sine_entry(d) <= TRIG_ONE,
        d >= 1 ==> sine_entry(d) >= 18739379,
        d == 0 ==> sine_entry(d) == 0,
        d == 30 ==> 2 * sine_entry(d) == TRIG_ONE,
        d == 90 ==> sine_entry(d) == TRIG_ONE,
        -2 * TRIG_ONE <= sine_entry(d) * sine_entry(d) + sine_entry(90 - d) * sine_entry(90 - d)
            - TRIG_ONE * TRIG_ONE <= 2 * TRIG_ONE,
{
    reveal(sine_entry);
}

/// The table turns by equal steps: each entry and its cosine follow from
/// the entry before by the addition formulas for one degree, to within two
/// parts in `TRIG_ONE`. Together with its ends, 0 and `TRIG_ONE`, this is
/// what ties the table to the sines of whole degrees.
pub proof fn lemma_table_turns_by_degrees(d: int)
    requires
        0 <= d < 90,
    ensures
        -2 * TRIG_ONE <= sine_entry(d + 1) * TRIG_ONE - (sine_entry(d) * sine_entry(89)
            + sine_entry(90 - d) * sine_entry(1)) <= 2 * TRIG_ONE,
        -2 * TRIG_ONE <= sine_entry(89 - d) * TRIG_ONE - (sine_entry(90 - d) * sine_entry(89)
            - sine_entry(d) * sine_entry(1)) <= 2 * TRIG_ONE,
{
    reveal(sine_entry);
}

/// Within the first quarter turn the nearest degree is one of the table,
/// the rest is at most half a degree, and the rest's sine and cosine lie on
/// the unit circle to within four parts in `TRIG_ONE`.
pub proof fn lemma_small_parts(r: int)
    requires
        0 <= r <= QUARTER_TURN,
    ensures
        0 <= nearest_degree(r) <= 90,
        -9370166 <= small_angle(r) <= 9370165,
        nearest_degree(r) == 0 ==> small_angle(r) >= 0,
        nearest_degree(r) == 90 ==> small_angle(r) <= 0,
        TRIG_ONE - 65536 <= small_cosine(small_angle(r)) <= TRIG_ONE,
        0 <= small_cosine(small_angle(r)) * small_cosine(small_angle(r)) + small_angle(r)
            * small_angle(r) - TRIG_ONE * TRIG_ONE <= 4 * TRIG_ONE,
{
    let d = nearest_degree(r);
    let f = r - d * ONE;
    let x = small_angle(r);
    assert(-32768 <= f < 32768);
    assert(-614083133440 <= f * DEGREE <= 614064393110) by (nonlinear_arith)
        requires
            -32768 <= f < 32768,
    ;
    if d == 0 {
        assert(f * DEGREE >= 0) by (nonlinear_arith)
            requires
                f >= 0,
        ;
    }
    if d == 90 {
        assert(f * DEGREE <= 0) by (nonlinear_arith)
            requires
                f <= 0,
        ;
    }
    assert(0 <= x * x <= 87800010867556) by (nonlinear_arith)
        requires
            -9370166 <= x <= 9370165,
    ;
    let xx = x * x;
    let q = xx / 2147483648;
    let c = small_cosine(x);
    assert(2 * TRIG_ONE == 2147483648);
    assert(c == 1073741824 - q);
    assert(0 <= q <= 40885);
    assert(2147483648 * q <= xx < 2147483648 * q + 2147483648);
    assert(c * c == 1152921504606846976 - 2147483648 * q + q * q) by (nonlinear_arith)
        requires
            c == 1073741824 - q,
    ;
    assert(0 <= q * q <= 1671583225) by (nonlinear_arith)
        requires
            0 <= q <= 40885,
    ;
    assert(TRIG_ONE * TRIG_ONE == 1152921504606846976);
}

/// What the series of the rest leave out: the sine series goes on with a
/// sixth of the cube of the rest and the cosine series with a
/// twenty-fourth of its fourth power, and no later term is larger. Within
/// the first quarter turn the first is less than 119 parts in `TRIG_ONE`
/// and the second less than one part.
pub proof fn lemma_series_remainders(r: int)
    requires
        0 <= r <= QUARTER_TURN,
    ensures
        ({
            let x = small_angle(r);
            let size = if x < 0 {
                -x
            } else {
                x
            };
            &&& size * size * size < 119 * (6 * TRIG_ONE * TRIG_ONE)
            &&& size * size * size * size < 24 * TRIG_ONE * TRIG_ONE * TRIG_ONE
        }),
{
    lemma_small_parts(r);
    let x = small_angle(r);
    let size = if x < 0 {
        -x
    } else {
        x
    };
    let square = size * size;
    assert(0 <= square <= 87800010867556) by (nonlinear_arith)
        requires
            0 <= size <= 9370166,
            square == size * size,
    ;
    let cube = square * size;
    assert(0 <= cube <= 87800010867556 * 9370166) by (nonlinear_arith)
        requires
            0 <= size <= 9370166,
            0 <= square <= 87800010867556,
            cube == square * size,
    ;
    assert(cube * size <= 87800010867556 * 9370166 * 9370166) by (nonlinear_arith)
        requires
            0 <= size <= 9370166,
            0 <= cube <= 87800010867556 * 9370166,
    ;
    assert(TRIG_ONE * TRIG_ONE == 1152921504606846976);
    assert(24 * TRIG_ONE * TRIG_ONE * TRIG_ONE == 24 * 1237940039285380274899124224) by {
        assert(1152921504606846976 * TRIG_ONE == 1237940039285380274899124224);
    }
}

/// The square of a number that was divided by `TRIG_ONE` and rounded down,
/// set against the square of the number itself.
proof fn lemma_scaled_square(a: int, s: int)
    requires
        s == a / 1073741824,
        0 <= a <= 1162982643738869760,
    ensures
        0 <= s <= 1083111990,
        0 <= a * a - s * s * 1152921504606846976 <= 3 * 1237940039285380274899124224,
{
    let t: int = 1073741824;
    let rem = a % t;
    assert(a == t * s + rem && 0 <= rem < t);
    let ss = s * s;
    let sr = s * rem;
    assert(a * a == ss * 1152921504606846976 + 2147483648 * sr + rem * rem) by (nonlinear_arith)
        requires
            a == 1073741824 * s + rem,
            ss == s * s,
            sr == s * rem,
    ;
    assert(0 <= rem * rem <= 1152921504606846976) by (nonlinear_arith)
        requires
            0 <= rem < 1073741824,
    ;
    assert(0 <= sr <= 1083111990 * 1073741824) by (nonlinear_arith)
        requires
            0 <= s <= 1083111990,
            0 <= rem < 1073741824,
            sr == s * rem,
    ;
}

/// The sum of the squares of `p + q` and `m - n` where `p * q == m * n`.
proof fn lemma_cross_terms_cancel(p: int, q: int, m: int, n: int)
    requires
        p * q == m * n,
    ensures
        (p + q) * (p + q) + (m - n) * (m - n) == p * p + q * q + m * m + n * n,
{
    assert((p + q) * (p + q) == p * p + 2 * (p * q) + q * q) by (nonlinear_arith);
    assert((m - n) * (m - n) == m * m - 2 * (m * n) + n * n) by (nonlinear_arith);
}

/// Products of products, regrouped.
proof fn lemma_regroup(a: int, b: int, c: int, d: int)
    ensures
        (a * b) * (c * d) == (a * c) * (b * d),
        (a * b) * (a * b) == (a * a) * (b * b),
{
    assert((a * b) * (c * d) == (a * c) * (b * d)) by (nonlinear_arith);
    assert((a * b) * (a * b) == (a * a) * (b * b)) by (nonlinear_arith);
}

/// Within the first quarter turn sine and cosine lie on the unit circle to
/// within `UNIT_SLACK`, and neither is negative.
pub proof fn lemma_quarter_unit(r: int)
    requires
        0 <= r <= QUARTER_TURN,
    ensures
        -UNIT_SLACK <= quarter_sine(r) * quarter_sine(r) + quarter_cosine(r) * quarter_cosine(r)
            - TRIG_ONE * TRIG_ONE <= UNIT_SLACK,
        0 <= quarter_sine(r) <= TRIG_LIMIT,
        0 <= quarter_cosine(r) <= TRIG_LIMIT,
{
    let t: int = 1073741824;
    let t2: int = 1152921504606846976;
    let t3: int = 1237940039285380274899124224;
    let d = nearest_degree(r);
    let x = small_angle(r);
    let c = small_cosine(x);
    lemma_small_parts(r);
    lemma_table(d);
    lemma_table(90 - d);
    assert(TRIG_ONE == t && TRIG_ONE * TRIG_ONE == t2);
    let s0 = sine_entry(d);
    let c0 = sine_entry(90 - d);
    let p = s0 * c;
    let q = c0 * x;
    let m = c0 * c;
    let n = s0 * x;
    let a = sine_parts(r);
    let b = cosine_parts(r);
    assert(a == p + q && b == m - n);
    let ss = s0 * s0;
    let cc = c0 * c0;
    let kk = c * c;
    let xx = x * x;
    let v = ss + cc - t2;
    let u = kk + xx - t2;
    assert(-2 * t <= v <= 2 * t);
    assert(0 <= u <= 4 * t);
    lemma_regroup(s0, c, c0, x);
    lemma_regroup(c0, c, s0, x);
    assert(p * q == m * n) by (nonlinear_arith)
        requires
            p * q == (s0 * c0) * (c * x),
            m * n == (c0 * s0) * (c * x),
    ;
    lemma_cross_terms_cancel(p, q, m, n);
    lemma_regroup(s0, c, s0, c);
    lemma_regroup(c0, x, c0, x);
    lemma_regroup(c0, c, c0, c);
    lemma_regroup(s0, x, s0, x);
    assert(a * a + b * b == ss * kk + cc * xx + cc * kk + ss * xx);
    assert(ss * kk + cc * xx + cc * kk + ss * xx == (v + t2) * (u + t2)) by (nonlinear_arith)
        requires
            v == ss + cc - t2,
            u == kk + xx - t2,
    ;
    assert((v + t2) * (u + t2) == v * u + t2 * (u + v) + t2 * t2) by (nonlinear_arith);
    assert(-8 * t2 <= v * u <= 8 * t2) by (nonlinear_arith)
        requires
            0 <= u <= 4 * 1073741824,
            -2 * 1073741824 <= v <= 2 * 1073741824,
            t2 == 1152921504606846976,
    ;
    assert(0 <= p <= t2 && 0 <= m <= t2) by (nonlinear_arith)
        requires
            0 <= s0 <= 1073741824,
            0 <= c0 <= 1073741824,
            0 <= c <= 1073741824,
            p == s0 * c,
            m == c0 * c,
            t2 == 1152921504606846976,
    ;
    assert(-1073741824 * 9370166 <= q <= 1073741824 * 9370166 && -1073741824 * 9370166 <= n
        <= 1073741824 * 9370166) by (nonlinear_arith)
        requires
            0 <= s0 <= 1073741824,
            0 <= c0 <= 1073741824,
            -9370166 <= x <= 9370166,
            q == c0 * x,
            n == s0 * x,
    ;
    assert(a >= 0) by {
        if d >= 1 {
            assert(p >= 18739379 * (1073741824 - 65536)) by (nonlinear_arith)
                requires
                    s0 >= 18739379,
                    c >= 1073741824 - 65536,
                    p == s0 * c,
            ;
        } else {
            assert(q >= 0) by (nonlinear_arith)
                requires
                    c0 >= 0,
                    x >= 0,
                    q == c0 * x,
            ;
        }
    }
    assert(b >= 0) by {
        if d <= 89 {
            assert(m >= 18739379 * (1073741824 - 65536)) by (nonlinear_arith)
                requires
                    c0 >= 18739379,
                    c >= 1073741824 - 65536,
                    m == c0 * c,
            ;
        } else {
            assert(n <= 0) by (nonlinear_arith)
                requires
                    s0 >= 0,
                    x <= 0,
                    n == s0 * x,
            ;
        }
    }
    let sn = quarter_sine(r);
    let cs = quarter_cosine(r);
    lemma_scaled_square(a, sn);
    lemma_scaled_square(b, cs);
    let w = sn * sn + cs * cs - t2;
    let big = a * a + b * b;
    assert(t2 * t2 - 2 * t * t2 - 8 * t2 <= big <= t2 * t2 + 6 * t * t2 + 8 * t2) by (nonlinear_arith)
        requires
            big == v * u + t2 * (u + v) + t2 * t2,
            -8 * t2 <= v * u <= 8 * t2,
            -2 * t <= u + v <= 6 * t,
            t2 > 0,
    ;
    assert(w * t2 == sn * sn * t2 + cs * cs * t2 - t2 * t2) by (nonlinear_arith)
        requires
            w == sn * sn + cs * cs - t2,
    ;
    assert(t * t2 == t3) by (nonlinear_arith)
        requires
            t == 1073741824,
            t2 == 1152921504606846976,
            t3 == 1237940039285380274899124224,
    ;
    assert(-9 * t3 <= w * t2 <= 7 * t3);
    assert(-11 * t <= w <= 11 * t);
    assert(sn * sn >= 0 && cs * cs >= 0) by (nonlinear_arith);
    assert(sn <= 1073741829) by (nonlinear_arith)
        requires
            sn * sn <= 1152921504606846976 + 11 * 1073741824,
            sn >= 0,
    ;
    assert(cs <= 1073741829) by (nonlinear_arith)
        requires
            cs * cs <= 1152921504606846976 + 11 * 1073741824,
            cs >= 0,
    ;
}

/// Sine and cosine of one angle lie on the unit circle to within
/// `UNIT_SLACK`, and neither exceeds `TRIG_LIMIT` in size.
pub proof fn lemma_unit_circle(angle: int)
    ensures
        -UNIT_SLACK <= sine(angle) * sine(angle) + cosine(angle) * cosine(angle) - TRIG_ONE
            * TRIG_ONE <= UNIT_SLACK,
        -TRIG_LIMIT <= sine(angle) <= TRIG_LIMIT,
        -TRIG_LIMIT <= cosine(angle) <= TRIG_LIMIT,
{
    reveal(sine);
    reveal(cosine);
    let a = normalize_angle(angle);
    let r = if a <= QUARTER_TURN {
        a
    } else if a <= HALF_TURN {
        HALF_TURN - a
    } else if a <= THREE_QUARTER_TURN {
        a - HALF_TURN
    } else {
        FULL_TURN - a
    };
    lemma_quarter_unit(r);
    let s = quarter_sine(r);
    let c = quarter_cosine(r);
    assert((-s) * (-s) == s * s && (-c) * (-c) == c * c) by (nonlinear_arith);
}

/// The sine is not negative in the first half turn, not positive in the
/// second, and zero where the two meet.
pub proof fn lemma_sine_sign(angle: int)
    requires
        0 <= angle < FULL_TURN,
    ensures
        angle <= HALF_TURN ==> 0 <= sine(angle),
        angle >= HALF_TURN || angle == 0 ==> sine(angle) <= 0,
{
    reveal(sine);
    let a = normalize_angle(angle);
    assert(a == angle);
    if a <= QUARTER_TURN {
        lemma_quarter_unit(a);
    } else if a <= HALF_TURN {
        lemma_quarter_unit(HALF_TURN - a);
    } else if a <= THREE_QUARTER_TURN {
        lemma_quarter_unit(a - HALF_TURN);
    } else {
        lemma_quarter_unit(FULL_TURN - a);
    }
    if a == 0 || a == HALF_TURN {
        lemma_axis_values();
    }
}

/// The cosine is not negative in the first and last quarter turns and not
/// positive in the two between them.
pub proof fn lemma_cosine_sign(angle: int)
    requires
        0 <= angle < FULL_TURN,
    ensures
        angle <= QUARTER_TURN || angle >= THREE_QUARTER_TURN ==> 0 <= cosine(angle),
        QUARTER_TURN <= angle <= THREE_QUARTER_TURN ==> cosine(angle) <= 0,
{
    reveal(cosine);
    let a = normalize_angle(angle);
    assert(a == angle);
    if a <= QUARTER_TURN {
        lemma_quarter_unit(a);
    } else if a <= HALF_TURN {
        lemma_quarter_unit(HALF_TURN - a);
    } else if a <= THREE_QUARTER_TURN {
        lemma_quarter_unit(a - HALF_TURN);
    } else {
        lemma_quarter_unit(FULL_TURN - a);
    }
    if a == QUARTER_TURN || a == THREE_QUARTER_TURN {
        lemma_axis_values();
    }
}

/// The sines and cosines of the four axis directions are exact.
pub proof fn lemma_axis_values()
    ensures
        sine(0) == 0 && cosine(0) == TRIG_ONE,
        sine(QUARTER_TURN as int) == TRIG_ONE && cosine(QUARTER_TURN as int) == 0,
        sine(HALF_TURN as int) == 0 && cosine(HALF_TURN as int) == -TRIG_ONE,
        sine(THREE_QUARTER_TURN as int) == -TRIG_ONE && cosine(THREE_QUARTER_TURN as int) == 0,
{
    reveal(sine);
    reveal(cosine);
    lemma_table(0);
    lemma_table(90);
    assert(nearest_degree(0) == 0 && small_angle(0) == 0);
    assert(nearest_degree(QUARTER_TURN as int) == 90 && small_angle(QUARTER_TURN as int) == 0);
    assert(small_cosine(0) == TRIG_ONE);
    assert(sine_parts(0) == 0 && cosine_parts(0) == TRIG_ONE * TRIG_ONE);
    assert(sine_parts(QUARTER_TURN as int) == TRIG_ONE * TRIG_ONE && cosine_parts(
        QUARTER_TURN as int,
    ) == 0);
}

/// Angles that differ by whole turns have the same sine and cosine.
pub proof fn lemma_same_direction(a: int, b: int)
    requires
        normalize_angle(a) == normalize_angle(b),
    ensures
        sine(a) == sine(b),
        cosine(a) == cosine(b),
{
    reveal(sine);
    reveal(cosine);
}

/// An angle and its normal form have the same sine and cosine.
pub proof fn lemma_normalize_keeps_direction(a: int)
    ensures
        0 <= normalize_angle(a) < FULL_TURN,
        sine(normalize_angle(a)) == sine(a),
        cosine(normalize_angle(a)) == cosine(a),
{
    vstd::arithmetic::div_mod::lemma_mod_twice(a, FULL_TURN as int);
    vstd::arithmetic::div_mod::lemma_mod_bound(a, FULL_TURN as int);
    lemma_same_direction(normalize_angle(a), a);
}

/// The table entry for `d` whole degrees.
fn table_entry(d: u8) -> (r: i64)
    requires
        d <= 90,
    ensures
        r == sine_entry(d as int),
{
    proof {
        reveal(sine_entry);
    }
    match d {
        0 => 0,
        1 => 18739379,
        2 => 37473049,
        3 => 56195305,
        4 => 74900443,
        5 => 93582766,
        6 => 112236583,
        7 => 130856211,
        8 => 149435979,
        9 => 167970228,
        10 => 186453311,
        11 => 204879599,
        12 => 223243478,
        13 => 241539355,
        14 => 259761657,
        15 => 277904834,
        16 => 295963357,
        17 => 313931728,
        18 => 331804471,
        19 => 349576144,
        20 => 367241333,
        21 => 384794656,
        22 => 402230767,
        23 => 419544355,
        24 => 436730145,
        25 => 453782903,
        26 => 470697435,
        27 => 487468587,
        28 => 504091252,
        29 => 520560366,
        30 => 536870912,
        31 => 553017922,
        32 => 568996477,
        33 => 584801711,
        34 => 600428808,
        35 => 615873009,
        36 => 631129609,
        37 => 646193961,
        38 => 661061475,
        39 => 675727625,
        40 => 690187940,
        41 => 704438018,
        42 => 718473518,
        43 => 732290163,
        44 => 745883746,
        45 => 759250125,
        46 => 772385229,
        47 => 785285058,
        48 => 797945680,
        49 => 810363241,
        50 => 822533958,
        51 => 834454122,
        52 => 846120104,
        53 => 857528349,
        54 => 868675383,
        55 => 879557810,
        56 => 890172315,
        57 => 900515665,
        58 => 910584710,
        59 => 920376381,
        60 => 929887697,
        61 => 939115760,
        62 => 948057759,
        63 => 956710970,
        64 => 965072759,
        65 => 973140576,
        66 => 980911966,
        67 => 988384560,
        68 => 995556083,
        69 => 1002424350,
        70 => 1008987269,
        71 => 1015242840,
        72 => 1021189159,
        73 => 1026824413,
        74 => 1032146887,
        75 => 1037154959,
        76 => 1041847103,
        77 => 1046221891,
        78 => 1050277989,
        79 => 1054014162,
        80 => 1057429273,
        81 => 1060522280,
        82 => 1063292242,
        83 => 1065738315,
        84 => 1067859754,
        85 => 1069655912,
        86 => 1071126243,
        87 => 1072270298,
        88 => 1073087729,
        89 => 1073578288,
        _ => 1073741824,
    }
}

/// Brings an angle into `0..FULL_TURN`.
pub fn normalize(angle: i64) -> (r: i64)
    ensures
        r == normalize_angle(angle as int),
        0 <= r < FULL_TURN,
{
    rem_floor(angle as i128, FULL_TURN as i128) as i64
}

/// The sine and the cosine of an angle within the first quarter turn.
fn quarter_pair(r: i64) -> (p: (i64, i64))
    requires
        0 <= r <= QUARTER_TURN,
    ensures
        p.0 == quarter_sine(r as int),
        p.1 == quarter_cosine(r as int),
        0 <= p.0 <= TRIG_LIMIT,
        0 <= p.1 <= TRIG_LIMIT,
{
    proof {
        lemma_small_parts(r as int);
        lemma_quarter_unit(r as int);
    }
    let d: i64 = (r + ONE / 2) / ONE;
    let f: i64 = r - d * ONE;
    assert(-614083133440 <= f * DEGREE <= 614064393110) by (nonlinear_arith)
        requires
            -32768 <= f < 32768,
    ;
    let x: i64 = div_floor((f * DEGREE) as i128, ONE as i128) as i64;
    assert(0 <= x * x <= 87800010867556) by (nonlinear_arith)
        requires
            -9370166 <= x <= 9370165,
    ;
    let c: i64 = TRIG_ONE - (x * x) / (2 * TRIG_ONE);
    let s0: i64 = table_entry(d as u8);
    let c0: i64 = table_entry((90 - d) as u8);
    proof {
        lemma_table(d as int);
        lemma_table(90 - d);
        assert(0 <= s0 * c <= 1073741824 * 1073741824 && 0 <= c0 * c <= 1073741824 * 1073741824)
            by (nonlinear_arith)
            requires
                0 <= s0 <= 1073741824,
                0 <= c0 <= 1073741824,
                0 <= c <= 1073741824,
        ;
        assert(-1073741824 * 9370166 <= c0 * x <= 1073741824 * 9370166 && -1073741824 * 9370166
            <= s0 * x <= 1073741824 * 9370166) by (nonlinear_arith)
            requires
                0 <= s0 <= 1073741824,
                0 <= c0 <= 1073741824,
                -9370166 <= x <= 9370166,
        ;
    }
    let a: i64 = s0 * c + c0 * x;
    let b: i64 = c0 * c - s0 * x;
    (
        div_floor(a as i128, TRIG_ONE as i128) as i64,
        div_floor(b as i128, TRIG_ONE as i128) as i64,
    )
}

/// The sine and the cosine of `angle`, an angle in fixed-point degrees.
pub fn sin_cos(angle: i64) -> (p: (i64, i64))
    ensures
        p.0 == sine(angle as int),
        p.1 == cosine(angle as int),
        -TRIG_LIMIT <= p.0 <= TRIG_LIMIT,
        -TRIG_LIMIT <= p.1 <= TRIG_LIMIT,
{
    proof {
        reveal(sine);
        reveal(cosine);
    }
    let a: i64 = normalize(angle);
    if a <= QUARTER_TURN {
        quarter_pair(a)
    } else if a <= HALF_TURN {
        let p: (i64, i64) = quarter_pair(HALF_TURN - a);
        (p.0, -p.1)
    } else if a <= THREE_QUARTER_TURN {
        let p: (i64, i64) = quarter_pair(a - HALF_TURN);
        (-p.0, -p.1)
    } else {
        let p: (i64, i64) = quarter_pair(FULL_TURN - a);
        (-p.0, p.1)
    }
}

/// The sine of `angle`, an angle in fixed-point degrees.
pub fn sin_deg(angle: i64) -> (s: i64)
    ensures
        s == sine(angle as int),
        -TRIG_LIMIT <= s <= TRIG_LIMIT,
{
    sin_cos(angle).0
}

/// The cosine of `angle`, an angle in fixed-point degrees.
pub fn cos_deg(angle: i64) -> (c: i64)
    ensures
        c == cosine(angle as int),
        -TRIG_LIMIT <= c <= TRIG_LIMIT,
{
    sin_cos(angle).1
}

} // verus!
