//! Weights of actions, and the choice by weight.
//!
//! A weight is a number of single precision, held in units of `2^-48`.

use vstd::prelude::*;

use crate::single::lemma_round24_absorbs;
use crate::single::lemma_round24_at_most;
use crate::single::lemma_round24_near;
use crate::single::lemma_round24_twice;
use crate::single::round24;
use crate::single::round24_signed;
use crate::single::round_signed;
use crate::single::round_unsigned;

verus! {

/// The weight one.
pub const ONE: u64 = 0x1_0000_0000_0000;

/// The weight of a widget: 0.4 for one of another app, else 1, times 3 where nothing was done
/// with it yet, 1.4 where that was at most twice, else 0.6.
pub open spec fn base_weight(foreign: bool, touched: int) -> int {
    let b = if foreign {
        13_421_773int * 0x80_0000int
    } else {
        ONE as int
    };
    if touched == 0 {
        round24(3 * b)
    } else if touched <= 2 {
        round24(11_744_051 * b) / 0x80_0000
    } else {
        round24(5_033_165 * b) / 0x80_0000
    }
}

/// The weight of an action of the given importance on a widget.
pub open spec fn action_weight(importance: int, foreign: bool, touched: int) -> int {
    round24(importance * base_weight(foreign, touched))
}

pub proof fn lemma_action_weight(importance: int, foreign: bool, touched: int)
    requires
        1 <= importance <= 10,
    ensures
        1 <= base_weight(foreign, touched) <= 0x8_0000_0000_0000,
        1 <= action_weight(importance, foreign, touched) <= 0x100_0000_0000_0000,
{
    let b = if foreign {
        13_421_773int * 0x80_0000int
    } else {
        ONE as int
    };
    lemma_round24_near(3 * b);
    lemma_round24_near(11_744_051 * b);
    lemma_round24_near(5_033_165 * b);
    let w = base_weight(foreign, touched);
    assert(1 <= importance * w <= 10 * 0x8_0000_0000_0000) by (nonlinear_arith)
        requires
            1 <= importance <= 10,
            1 <= w <= 0x8_0000_0000_0000,
    ;
    lemma_round24_near(importance * w);
}

/// The weight of an action of the given importance on a widget that was used `touched` times.
pub fn weigh(importance: u64, foreign: bool, touched: u32) -> (r: u64)
    requires
        1 <= importance <= 10,
    ensures
        r == action_weight(importance as int, foreign, touched as int),
        1 <= r <= 0x100_0000_0000_0000,
{
    proof {
        lemma_action_weight(importance as int, foreign, touched as int);
    }
    let b: u128 = if foreign {
        13_421_773 * 0x80_0000
    } else {
        ONE as u128
    };
    let base: u128 = if touched == 0 {
        round_unsigned(3 * b)
    } else if touched <= 2 {
        round_unsigned(11_744_051 * b) / 0x80_0000
    } else {
        round_unsigned(5_033_165 * b) / 0x80_0000
    };
    assert(importance * base <= 10 * 0x8_0000_0000_0000) by (nonlinear_arith)
        requires
            1 <= importance <= 10,
            1 <= base <= 0x8_0000_0000_0000,
    ;
    round_unsigned(importance as u128 * base) as u64
}

/// A widget that nothing was done with weighs more than one that was used, whatever the action.
pub proof fn lemma_untouched_weighs_more(importance: int, foreign: bool, touched: int)
    requires
        1 <= importance <= 10,
        touched >= 1,
    ensures
        action_weight(importance, foreign, 0) > action_weight(importance, foreign, touched),
{
    let b = if foreign {
        13_421_773int * 0x80_0000int
    } else {
        ONE as int
    };
    lemma_near_relative(3 * b);
    lemma_near_relative(11_744_051 * b);
    lemma_near_relative(5_033_165 * b);
    let x = base_weight(foreign, 0);
    let y = base_weight(foreign, touched);
    assert(10 * y <= 6 * x);
    lemma_action_weight(importance, foreign, 0);
    lemma_action_weight(importance, foreign, touched);
    assert(10 * (importance * y) <= 6 * (importance * x)) by (nonlinear_arith)
        requires
            10 * y <= 6 * x,
            1 <= importance,
    ;
    assert(importance * x >= 1 && importance * y >= 1) by (nonlinear_arith)
        requires
            x >= 1,
            y >= 1,
            importance >= 1,
    ;
    lemma_near_relative(importance * x);
    lemma_near_relative(importance * y);
}

/// Rounding changes a number by less than a hundredth.
proof fn lemma_near_relative(x: int)
    requires
        0 <= x,
    ensures
        99 * x <= 100 * round24(x) <= 101 * x,
{
    lemma_round24_near(x);
    crate::single::lemma_ulp24(x);
    if x < 0x100_0000 {
        crate::single::lemma_round24_exact(x);
    }
}

/// The sum of weights, rounded after each.
pub open spec fn total_of(ws: Seq<u64>) -> int
    decreases ws.len(),
{
    if ws.len() == 0 {
        0
    } else {
        round24(total_of(ws.drop_last()) + ws.last())
    }
}

/// Every weight is one that `weigh` can give.
pub open spec fn fair(ws: Seq<u64>) -> bool {
    forall|i: int| 0 <= i < ws.len() ==> 1 <= #[trigger] ws[i] <= 0x100_0000_0000_0000
}

proof fn lemma_total(ws: Seq<u64>)
    requires
        fair(ws),
    ensures
        0 <= total_of(ws),
        ws.len() > 0 ==> total_of(ws) > 0,
        round24(total_of(ws)) == total_of(ws),
    decreases ws.len(),
{
    if ws.len() > 0 {
        lemma_total(ws.drop_last());
        let x = total_of(ws.drop_last()) + ws.last();
        lemma_round24_near(x);
        lemma_round24_twice(x);
    } else {
        crate::single::lemma_round24_exact(0);
    }
}

/// The sum of weights, rounded after each; it is above zero unless there are none.
pub fn total(ws: &Vec<u64>) -> (r: u128)
    requires
        fair(ws@),
    ensures
        r == total_of(ws@),
        ws@.len() > 0 ==> r > 0,
        r <= 0x10_0000_0000_0000_0000_0000_0000,
        round24(r as int) == r,
{
    let mut t: u128 = 0;
    let mut i: usize = 0;
    assert(ws@.take(0) =~= seq![]);
    while i < ws.len()
        invariant
            i <= ws@.len(),
            fair(ws@),
            t == total_of(ws@.take(i as int)),
            t <= 0x10_0000_0000_0000_0000_0000_0000,
        decreases ws@.len() - i,
    {
        proof {
            assert(ws@.take(i + 1).drop_last() =~= ws@.take(i as int));
            assert(ws@.take(i + 1).last() == ws@[i as int]);
            lemma_total(ws@.take(i as int));
        }
        if t >= 0x4_0000_0000_0000_0000_0000_0000 {
            proof {
                lemma_round24_absorbs(t as int, ws@[i as int] as int);
            }
        } else {
            proof {
                lemma_round24_near(t + ws@[i as int]);
            }
            t = round_unsigned(t + ws[i] as u128);
        }
        i = i + 1;
    }
    assert(ws@.take(i as int) =~= ws@);
    proof {
        lemma_total(ws@);
    }
    t
}

/// The item that a draw falls on, from the `i`th on: the weights are taken off the draw until
/// nothing is left of it.
pub open spec fn pick_from(ws: Seq<u64>, i: int, r: int) -> int
    decreases ws.len() - i,
{
    if i + 1 >= ws.len() {
        ws.len() - 1
    } else {
        let q = round24_signed(r - ws[i]);
        if q <= 0 {
            i
        } else {
            pick_from(ws, i + 1, q)
        }
    }
}

/// The item that a draw falls on. The draw is a number of single precision, in units of
/// `2^-48`.
pub fn pick(ws: &Vec<u64>, draw: i128) -> (r: usize)
    requires
        ws@.len() > 0,
        fair(ws@),
        0 <= draw <= 0x1000_0000_0000_0000_0000_0000_0000_0000,
        round24(draw as int) == draw,
    ensures
        r < ws@.len(),
        r == pick_from(ws@, 0, draw as int),
{
    let mut left: i128 = draw;
    let mut i: usize = 0;
    let last: usize = ws.len() - 1;
    while i < last
        invariant
            i <= last,
            last == ws@.len() - 1,
            fair(ws@),
            0 <= left <= 0x1000_0000_0000_0000_0000_0000_0000_0000,
            round24(left as int) == left,
            pick_from(ws@, i as int, left as int) == pick_from(ws@, 0, draw as int),
        decreases ws@.len() - i,
    {
        let w: i128 = ws[i] as i128;
        proof {
            if left - w >= 0 {
                lemma_round24_at_most(left - w, left as int);
                lemma_round24_twice(left - w);
            }
        }
        let rest = round_signed(left - w);
        if rest <= 0 {
            return i;
        }
        proof {
            if left - w < 0 {
                lemma_round24_near(w - left);
            }
        }
        left = rest;
        i = i + 1;
    }
    i
}

} // verus!
