//! Operators of story expressions and assignments, and integer arithmetic
//! on story values.

use vstd::prelude::*;

verus! {

/// Arithmetic operator of a binary story expression.
#[derive(Debug, Clone, Copy, PartialEq, Eq, Structural)]
pub enum StoryArithOp {
    /// +
    Add,
    /// -
    Sub,
    /// *
    Mul,
    /// /
    Div,
}

/// Comparison operator for narrative conditions.
#[derive(Debug, Clone, Copy, PartialEq, Eq, Structural)]
pub enum StoryCmpOp {
    /// ==
    Eq,
    /// !=
    Ne,
    /// <
    Lt,
    /// <=
    Le,
    /// >
    Gt,
    /// >=
    Ge,
}

/// Assignment operator for story scripts.
#[derive(Debug, Clone, Copy, PartialEq, Eq, Structural)]
pub enum AssignOp {
    /// `=` (plain assignment)
    Assign,
    /// `+=`
    Add,
    /// `-=`
    Sub,
}

/// `v` clamped to the `i64` range.
pub open spec fn saturate(v: int) -> i64 {
    if v > i64::MAX {
        i64::MAX
    } else if v < i64::MIN {
        i64::MIN
    } else {
        v as i64
    }
}

/// Integer division rounding toward zero, as Rust's `/` does.
pub open spec fn div_toward_zero(a: int, b: int) -> int {
    let q = (if a < 0 {
        -a
    } else {
        a
    }) / (if b < 0 {
        -b
    } else {
        b
    });
    if (a < 0) != (b < 0) {
        -q
    } else {
        q
    }
}

/// Story integer arithmetic: saturating `+ - *`, and division rounding
/// toward zero with `x / 0 == 0`.
pub open spec fn int_arith_spec(a: i64, b: i64, op: StoryArithOp) -> i64 {
    match op {
        StoryArithOp::Add => saturate(a + b),
        StoryArithOp::Sub => saturate(a - b),
        StoryArithOp::Mul => saturate(a * b),
        StoryArithOp::Div => if b == 0 {
            0
        } else {
            div_toward_zero(a as int, b as int) as i64
        },
    }
}

fn clamp_i128(v: i128) -> (r: i64)
    ensures
        r == saturate(v as int),
{
    if v > i64::MAX as i128 {
        i64::MAX
    } else if v < i64::MIN as i128 {
        i64::MIN
    } else {
        v as i64
    }
}

fn magnitude(a: i64) -> (m: u64)
    ensures
        m as int == if a < 0 {
            -a
        } else {
            a as int
        },
{
    if a < 0 {
        ((-(a as i128)) as u64)
    } else {
        a as u64
    }
}

/// Apply `op` to two story integers (saturating; division by zero gives 0).
/// `i64::MIN / -1` has no `i64` result and is left out.
pub fn int_arith(a: i64, b: i64, op: StoryArithOp) -> (r: i64)
    requires
        !(op == StoryArithOp::Div && a == i64::MIN && b == -1),
    ensures
        r == int_arith_spec(a, b, op),
{
    match op {
        StoryArithOp::Add => clamp_i128(a as i128 + b as i128),
        StoryArithOp::Sub => clamp_i128(a as i128 - b as i128),
        StoryArithOp::Mul => {
            assert(a as int * b as int <= 0x4000_0000_0000_0000_0000_0000_0000_0000) by (
            nonlinear_arith)
                requires
                    -0x8000_0000_0000_0000 <= a <= 0x7fff_ffff_ffff_ffff,
                    -0x8000_0000_0000_0000 <= b <= 0x7fff_ffff_ffff_ffff,
            ;
            assert(a as int * b as int >= -0x4000_0000_0000_0000_0000_0000_0000_0000) by (
            nonlinear_arith)
                requires
                    -0x8000_0000_0000_0000 <= a <= 0x7fff_ffff_ffff_ffff,
                    -0x8000_0000_0000_0000 <= b <= 0x7fff_ffff_ffff_ffff,
            ;
            let p = a as i128 * b as i128;
            clamp_i128(p)
        },
        StoryArithOp::Div => {
            if b == 0 {
                0
            } else {
                let q = magnitude(a) / magnitude(b);
                let neg = (a < 0) != (b < 0);
                if neg {
                    (-(q as i128)) as i64
                } else {
                    proof {
                        if a == i64::MIN {
                            assert(b < 0);
                            assert(b <= -2);
                            assert(q as int <= 0x8000_0000_0000_0000int / 2) by (nonlinear_arith)
                                requires
                                    q as int == 0x8000_0000_0000_0000int / (-(b as int)),
                                    -(b as int) >= 2,
                            ;
                        }
                        assert(q <= 0x7fff_ffff_ffff_ffff);
                    }
                    q as i64
                }
            }
        },
    }
}

} // verus!
