//! Fitness evaluator: folds a decoded instruction sequence into a numeric
//! result and scores it against the target.
//!
//! Expression values are carried exactly as integer counts of tenths of a
//! unit, so a target with one decimal place is represented without error;
//! division truncates toward zero at that resolution. Fitness is an
//! integer count of millionths: an exact match scores the 999.9 sentinel
//! (`EXACT_FITNESS`), any other result scores `1 / |target - result|`
//! truncated to millionths.

use vstd::prelude::*;
use crate::GENE_COUNT;
use crate::codec::OP_ADD;
use crate::codec::OP_SUB;
use crate::codec::OP_MUL;
use crate::codec::OP_DIV;
use crate::codec::is_op;
use crate::codec::wf_tokens;
use crate::codec::no_div_by_zero;

verus! {

/// Fitness of an exact match: 999.9 in millionths.
pub const EXACT_FITNESS: u64 = 999_900_000;

/// Largest admissible target magnitude, in tenths of a unit.
pub const TARGET_LIMIT: i64 = 1_000_000_000_000_000;

/// Magnitude of an integer.
pub open spec fn mag(x: int) -> int {
    if x >= 0 {
        x
    } else {
        -x
    }
}

/// Division truncating toward zero, as machine division does.
pub open spec fn trunc_div(a: int, b: int) -> int
    recommends
        b >= 1,
{
    if a >= 0 {
        a / b
    } else {
        -((-a) / b)
    }
}

/// Powers of nine, the growth rate of an expression value under the
/// widest single-digit multiplication.
pub open spec fn pow9(k: nat) -> int
    decreases k,
{
    if k == 0 {
        1
    } else {
        9 * pow9((k - 1) as nat)
    }
}

/// One operator applied to the running value (all in tenths): `d` is the
/// operand digit. A divide whose operand is zero leaves the value
/// unchanged, the same effect as the add-zero the codec's guard rewrites
/// it to; it is unreachable for guarded sequences.
pub open spec fn apply_op(acc: int, op: u32, d: u32) -> int {
    if op == OP_ADD {
        acc + 10 * d
    } else if op == OP_SUB {
        acc - 10 * d
    } else if op == OP_MUL {
        acc * d
    } else if op == OP_DIV {
        if d == 0 {
            acc
        } else {
            trunc_div(acc, d as int)
        }
    } else {
        acc
    }
}

/// Value, in tenths, after the first `k` operator applications of a
/// well-formed instruction sequence: the first operand seeded, then
/// elements walked two at a time as (operator, operand) pairs.
pub open spec fn eval_prefix(s: Seq<u32>, k: int) -> int
    decreases k,
{
    if k <= 0 {
        if s.len() > 0 {
            10 * s[0]
        } else {
            0
        }
    } else {
        apply_op(eval_prefix(s, k - 1), s[2 * k - 1], s[2 * k])
    }
}

/// Value, in tenths, of a whole instruction sequence; an empty sequence
/// has value zero by policy.
pub open spec fn eval_tokens(s: Seq<u32>) -> int {
    eval_prefix(s, (s.len() - 1) / 2)
}

/// Fitness, in millionths, of an instruction sequence against a target
/// given in tenths: zero for an empty sequence, the exact-match sentinel
/// when the value hits the target, else the truncated reciprocal of the
/// distance, floored at one millionth so a non-exact result is always
/// scored positive, however far it lies from the target.
pub open spec fn fitness_spec(s: Seq<u32>, target_tenths: int) -> int {
    if s.len() == 0 {
        0
    } else {
        let r = eval_tokens(s);
        if r == target_tenths {
            EXACT_FITNESS as int
        } else {
            let q = 10_000_000int / mag(target_tenths - r);
            if q >= 1 {
                q
            } else {
                1
            }
        }
    }
}

proof fn lemma_pow9_pos(k: nat)
    ensures
        pow9(k) >= 1,
    decreases k,
{
    if k > 0 {
        lemma_pow9_pos((k - 1) as nat);
    }
}

proof fn lemma_pow9_mono(a: nat, b: nat)
    requires
        a <= b,
    ensures
        pow9(a) <= pow9(b),
    decreases b,
{
    if a < b {
        lemma_pow9_mono(a, (b - 1) as nat);
        lemma_pow9_pos((b - 1) as nat);
    }
}

proof fn lemma_pow9_fits()
    ensures
        10 * pow9(39) + 2 * TARGET_LIMIT < i128::MAX as int,
{
    reveal_with_fuel(pow9, 40);
}

/// Division truncating toward zero; the result never grows in magnitude.
fn trunc_div_i128(a: i128, b: i128) -> (r: i128)
    requires
        b >= 1,
        a > i128::MIN,
    ensures
        r == trunc_div(a as int, b as int),
        mag(r as int) <= mag(a as int),
{
    if a >= 0 {
        proof {
            vstd::arithmetic::div_mod::lemma_div_nonincreasing(a as int, b as int);
            vstd::arithmetic::div_mod::lemma_div_pos_is_pos(a as int, b as int);
        }
        ((a as u128) / (b as u128)) as i128
    } else {
        let neg = (0 - a) as u128;
        proof {
            vstd::arithmetic::div_mod::lemma_div_nonincreasing(neg as int, b as int);
            vstd::arithmetic::div_mod::lemma_div_pos_is_pos(neg as int, b as int);
        }
        0 - ((neg / (b as u128)) as i128)
    }
}

/// Evaluates a well-formed instruction sequence against a target given in
/// tenths and returns its fitness in millionths. This is the whole
/// scoring rule: the first operand seeds the value, the remaining
/// elements are applied two at a time as (operator, operand) pairs, and
/// the result is scored as `fitness_spec` says.
pub fn evaluate(genes: &Vec<u32>, target_tenths: i64) -> (fit: u64)
    requires
        wf_tokens(genes@),
        no_div_by_zero(genes@),
        genes@.len() <= GENE_COUNT,
        -TARGET_LIMIT <= target_tenths <= TARGET_LIMIT,
    ensures
        fit == fitness_spec(genes@, target_tenths as int),
        fit <= EXACT_FITNESS,
        genes@.len() > 0 ==> fit >= 1,
{
    if genes.len() == 0 {
        return 0;
    }
    let ghost s = genes@;
    let m: usize = (genes.len() - 1) / 2;
    proof {
        assert(m <= 37);
        assert(s[0] <= 9);
    }
    let mut acc: i128 = 10 * (genes[0] as i128);
    let mut k: usize = 0;
    proof {
        assert(pow9(2) == 81) by {
            reveal_with_fuel(pow9, 3);
        }
        assert(mag(acc as int) <= 10 * pow9(2));
    }
    while k < m
        invariant
            k <= m,
            m <= 37,
            m == (s.len() - 1) / 2,
            genes@ == s,
            s.len() <= GENE_COUNT,
            wf_tokens(s),
            no_div_by_zero(s),
            acc == eval_prefix(s, k as int),
            mag(acc as int) <= 10 * pow9((k + 2) as nat),
        decreases m - k,
    {
        proof {
            assert(2 * k + 2 < s.len());
            assert(is_op(s[2 * k + 1]));
            assert(s[2 * k + 2] <= 9);
            assert(pow9((k + 3) as nat) == 9 * pow9((k + 2) as nat));
            assert(pow9((k + 2) as nat) == 9 * pow9((k + 1) as nat));
            assert(pow9((k + 1) as nat) == 9 * pow9(k as nat));
            lemma_pow9_pos(k as nat);
            lemma_pow9_mono((k + 3) as nat, 39);
            lemma_pow9_fits();
        }
        let op = genes[2 * k + 1];
        let d = genes[2 * k + 2];
        let ghost b_cur = 10 * pow9((k + 2) as nat);
        let ghost b_next = 10 * pow9((k + 3) as nat);
        if op == OP_ADD {
            acc = acc + 10 * (d as i128);
        } else if op == OP_SUB {
            acc = acc - 10 * (d as i128);
        } else if op == OP_MUL {
            proof {
                assert(mag(acc * d) <= 9 * b_cur) by (nonlinear_arith)
                    requires
                        mag(acc as int) <= b_cur,
                        0 <= d <= 9,
                        b_cur >= 0,
                ;
            }
            acc = acc * (d as i128);
        } else {
            // divide; the codec's guard keeps zero operands out, and a
            // zero operand would leave the value unchanged anyway
            if d > 0 {
                acc = trunc_div_i128(acc, d as i128);
            }
        }
        k = k + 1;
        proof {
            assert(acc == eval_prefix(s, k as int));
            assert(mag(acc as int) <= b_next);
        }
    }
    proof {
        lemma_pow9_mono((k + 2) as nat, 39);
        lemma_pow9_fits();
        assert(acc == eval_tokens(s));
    }
    let t = target_tenths as i128;
    let dist: i128 = if acc >= t {
        acc - t
    } else {
        t - acc
    };
    proof {
        assert(dist == mag(target_tenths - eval_tokens(s)));
    }
    if dist == 0 {
        EXACT_FITNESS
    } else {
        let q = ((10_000_000u128) / (dist as u128)) as u64;
        proof {
            vstd::arithmetic::div_mod::lemma_div_nonincreasing(10_000_000, dist as int);
            vstd::arithmetic::div_mod::lemma_div_pos_is_pos(10_000_000, dist as int);
        }
        if q >= 1 {
            q
        } else {
            1
        }
    }
}

} // verus!
