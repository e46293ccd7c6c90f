use vstd::prelude::*;
use crate::util::math::{arrangements, combination_sets, combinations, increasing_from, lemma_increasing_from_bounds, lemma_no_sets, DetailC, MathUtil};

verus! {

/// The product of the option counts of the matches in `set`.
pub open spec fn set_product(lens: Seq<i32>, set: Seq<i64>) -> int
    decreases set.len(),
{
    if set.len() == 0 {
        1
    } else {
        set_product(lens, set.drop_last()) * lens[set.last() as int]
    }
}

/// The sum of `set_product` over `sets`.
pub open spec fn sets_total(lens: Seq<i32>, sets: Seq<Seq<i64>>) -> int
    decreases sets.len(),
{
    if sets.len() == 0 {
        0
    } else {
        sets_total(lens, sets.drop_last()) + set_product(lens, sets.last())
    }
}

/// The number of bets of an `m`-match parlay whose combined sizes are the
/// levels marked `true` (level `k` is position `k - 1`): for each such level
/// `k`, every `k`-subset of the matches contributes the product of its
/// matches' option counts.
pub open spec fn parlay_count(lens: Seq<i32>, m: int, levels: Seq<bool>) -> int
    decreases levels.len(),
{
    if levels.len() == 0 {
        0
    } else {
        parlay_count(lens, m, levels.drop_last()) + if levels.last() {
            sets_total(lens, combination_sets(m, levels.len() as nat))
        } else {
            0
        }
    }
}

/// The combined sizes of the pass type `m*n` with one digit each, as eight
/// flags for the sizes 1 to 8; `None` for a pass type that does not exist.
pub open spec fn pass_levels(m: char, n: char) -> Option<Seq<bool>> {
    let t = true;
    let f = false;
    if m == '1' && n == '1' { Some(seq![t, f, f, f, f, f, f, f]) }
    else if m == '2' && n == '1' { Some(seq![f, t, f, f, f, f, f, f]) }
    else if m == '3' && n == '1' { Some(seq![f, f, t, f, f, f, f, f]) }
    else if m == '4' && n == '1' { Some(seq![f, f, f, t, f, f, f, f]) }
    else if m == '5' && n == '1' { Some(seq![f, f, f, f, t, f, f, f]) }
    else if m == '6' && n == '1' { Some(seq![f, f, f, f, f, t, f, f]) }
    else if m == '7' && n == '1' { Some(seq![f, f, f, f, f, f, t, f]) }
    else if m == '8' && n == '1' { Some(seq![f, f, f, f, f, f, f, t]) }
    else if m == '2' && n == '3' { Some(seq![t, t, f, f, f, f, f, f]) }
    else if m == '3' && n == '6' { Some(seq![t, t, f, f, f, f, f, f]) }
    else if m == '3' && n == '7' { Some(seq![t, t, t, f, f, f, f, f]) }
    else if m == '3' && n == '3' { Some(seq![f, t, f, f, f, f, f, f]) }
    else if m == '3' && n == '4' { Some(seq![f, t, t, f, f, f, f, f]) }
    else if m == '4' && n == '6' { Some(seq![f, t, f, f, f, f, f, f]) }
    else if m == '4' && n == '4' { Some(seq![f, f, t, f, f, f, f, f]) }
    else if m == '4' && n == '5' { Some(seq![f, f, t, t, f, f, f, f]) }
    else if m == '5' && n == '5' { Some(seq![f, f, f, t, f, f, f, f]) }
    else if m == '5' && n == '6' { Some(seq![f, f, f, t, t, f, f, f]) }
    else if m == '6' && n == '6' { Some(seq![f, f, f, f, t, f, f, f]) }
    else if m == '6' && n == '7' { Some(seq![f, f, f, f, t, t, f, f]) }
    else if m == '7' && n == '7' { Some(seq![f, f, f, f, f, t, f, f]) }
    else if m == '7' && n == '8' { Some(seq![f, f, f, f, f, t, t, f]) }
    else if m == '8' && n == '8' { Some(seq![f, f, f, f, f, f, t, f]) }
    else if m == '8' && n == '9' { Some(seq![f, f, f, f, f, f, t, t]) }
    else { None }
}

/// The bets of a pass type over `m` matches with one option each, at the
/// combined sizes flagged in `levels` (size `k` at position `k - 1`): the sum
/// of `C(m, k)` over the flagged sizes.
pub open spec fn flagged_bets(m: int, levels: Seq<bool>) -> int
    decreases levels.len(),
{
    if levels.len() == 0 {
        0
    } else {
        flagged_bets(m, levels.drop_last()) + if levels.last() {
            combinations(m, levels.len() as int)
        } else {
            0
        }
    }
}

/// One past the position of the last flag set in `levels`, or 0.
pub open spec fn last_flag(levels: Seq<bool>) -> int
    decreases levels.len(),
{
    if levels.len() == 0 {
        0
    } else if levels.last() {
        levels.len() as int
    } else {
        last_flag(levels.drop_last())
    }
}

proof fn lemma_last_flag(levels: Seq<bool>)
    ensures
        forall|j: int| 0 <= j < levels.len() && #[trigger] levels[j] ==> j < last_flag(levels),
    decreases levels.len(),
{
    if levels.len() > 0 {
        let d = levels.drop_last();
        lemma_last_flag(d);
        assert forall|j: int| 0 <= j < levels.len() && #[trigger] levels[j] implies j < last_flag(levels) by {
            if j < d.len() {
                assert(d[j] == levels[j]);
            }
        }
    }
}

proof fn lemma_small_combinations()
    ensures
        combinations(1, 1) == 1,
        combinations(2, 1) == 2,
        combinations(2, 2) == 1,
        combinations(3, 1) == 3,
        combinations(3, 2) == 3,
        combinations(3, 3) == 1,
        combinations(4, 1) == 4,
        combinations(4, 2) == 6,
        combinations(4, 3) == 4,
        combinations(4, 4) == 1,
        combinations(5, 1) == 5,
        combinations(5, 2) == 10,
        combinations(5, 3) == 10,
        combinations(5, 4) == 5,
        combinations(5, 5) == 1,
        combinations(6, 1) == 6,
        combinations(6, 2) == 15,
        combinations(6, 3) == 20,
        combinations(6, 4) == 15,
        combinations(6, 5) == 6,
        combinations(6, 6) == 1,
        combinations(7, 1) == 7,
        combinations(7, 2) == 21,
        combinations(7, 3) == 35,
        combinations(7, 4) == 35,
        combinations(7, 5) == 21,
        combinations(7, 6) == 7,
        combinations(7, 7) == 1,
        combinations(8, 1) == 8,
        combinations(8, 2) == 28,
        combinations(8, 3) == 56,
        combinations(8, 4) == 70,
        combinations(8, 5) == 56,
        combinations(8, 6) == 28,
        combinations(8, 7) == 8,
        combinations(8, 8) == 1,
{
    assert(arrangements(1, 0) == 1);
    assert(arrangements(1, 1) == 1) by (nonlinear_arith)
        requires
            arrangements(1, 1) == arrangements(1, 0) * 1,
            arrangements(1, 0) == 1,
    ;
    assert(arrangements(2, 0) == 1);
    assert(arrangements(2, 1) == 2) by (nonlinear_arith)
        requires
            arrangements(2, 1) == arrangements(2, 0) * 2,
            arrangements(2, 0) == 1,
    ;
    assert(arrangements(2, 2) == 2) by (nonlinear_arith)
        requires
            arrangements(2, 2) == arrangements(2, 1) * 1,
            arrangements(2, 1) == 2,
    ;
    assert(arrangements(3, 0) == 1);
    assert(arrangements(3, 1) == 3) by (nonlinear_arith)
        requires
            arrangements(3, 1) == arrangements(3, 0) * 3,
            arrangements(3, 0) == 1,
    ;
    assert(arrangements(3, 2) == 6) by (nonlinear_arith)
        requires
            arrangements(3, 2) == arrangements(3, 1) * 2,
            arrangements(3, 1) == 3,
    ;
    assert(arrangements(3, 3) == 6) by (nonlinear_arith)
        requires
            arrangements(3, 3) == arrangements(3, 2) * 1,
            arrangements(3, 2) == 6,
    ;
    assert(arrangements(4, 0) == 1);
    assert(arrangements(4, 1) == 4) by (nonlinear_arith)
        requires
            arrangements(4, 1) == arrangements(4, 0) * 4,
            arrangements(4, 0) == 1,
    ;
    assert(arrangements(4, 2) == 12) by (nonlinear_arith)
        requires
            arrangements(4, 2) == arrangements(4, 1) * 3,
            arrangements(4, 1) == 4,
    ;
    assert(arrangements(4, 3) == 24) by (nonlinear_arith)
        requires
            arrangements(4, 3) == arrangements(4, 2) * 2,
            arrangements(4, 2) == 12,
    ;
    assert(arrangements(4, 4) == 24) by (nonlinear_arith)
        requires
            arrangements(4, 4) == arrangements(4, 3) * 1,
            arrangements(4, 3) == 24,
    ;
    assert(arrangements(5, 0) == 1);
    assert(arrangements(5, 1) == 5) by (nonlinear_arith)
        requires
            arrangements(5, 1) == arrangements(5, 0) * 5,
            arrangements(5, 0) == 1,
    ;
    assert(arrangements(5, 2) == 20) by (nonlinear_arith)
        requires
            arrangements(5, 2) == arrangements(5, 1) * 4,
            arrangements(5, 1) == 5,
    ;
    assert(arrangements(5, 3) == 60) by (nonlinear_arith)
        requires
            arrangements(5, 3) == arrangements(5, 2) * 3,
            arrangements(5, 2) == 20,
    ;
    assert(arrangements(5, 4) == 120) by (nonlinear_arith)
        requires
            arrangements(5, 4) == arrangements(5, 3) * 2,
            arrangements(5, 3) == 60,
    ;
    assert(arrangements(5, 5) == 120) by (nonlinear_arith)
        requires
            arrangements(5, 5) == arrangements(5, 4) * 1,
            arrangements(5, 4) == 120,
    ;
    assert(arrangements(6, 0) == 1);
    assert(arrangements(6, 1) == 6) by (nonlinear_arith)
        requires
            arrangements(6, 1) == arrangements(6, 0) * 6,
            arrangements(6, 0) == 1,
    ;
    assert(arrangements(6, 2) == 30) by (nonlinear_arith)
        requires
            arrangements(6, 2) == arrangements(6, 1) * 5,
            arrangements(6, 1) == 6,
    ;
    assert(arrangements(6, 3) == 120) by (nonlinear_arith)
        requires
            arrangements(6, 3) == arrangements(6, 2) * 4,
            arrangements(6, 2) == 30,
    ;
    assert(arrangements(6, 4) == 360) by (nonlinear_arith)
        requires
            arrangements(6, 4) == arrangements(6, 3) * 3,
            arrangements(6, 3) == 120,
    ;
    assert(arrangements(6, 5) == 720) by (nonlinear_arith)
        requires
            arrangements(6, 5) == arrangements(6, 4) * 2,
            arrangements(6, 4) == 360,
    ;
    assert(arrangements(6, 6) == 720) by (nonlinear_arith)
        requires
            arrangements(6, 6) == arrangements(6, 5) * 1,
            arrangements(6, 5) == 720,
    ;
    assert(arrangements(7, 0) == 1);
    assert(arrangements(7, 1) == 7) by (nonlinear_arith)
        requires
            arrangements(7, 1) == arrangements(7, 0) * 7,
            arrangements(7, 0) == 1,
    ;
    assert(arrangements(7, 2) == 42) by (nonlinear_arith)
        requires
            arrangements(7, 2) == arrangements(7, 1) * 6,
            arrangements(7, 1) == 7,
    ;
    assert(arrangements(7, 3) == 210) by (nonlinear_arith)
        requires
            arrangements(7, 3) == arrangements(7, 2) * 5,
            arrangements(7, 2) == 42,
    ;
    assert(arrangements(7, 4) == 840) by (nonlinear_arith)
        requires
            arrangements(7, 4) == arrangements(7, 3) * 4,
            arrangements(7, 3) == 210,
    ;
    assert(arrangements(7, 5) == 2520) by (nonlinear_arith)
        requires
            arrangements(7, 5) == arrangements(7, 4) * 3,
            arrangements(7, 4) == 840,
    ;
    assert(arrangements(7, 6) == 5040) by (nonlinear_arith)
        requires
            arrangements(7, 6) == arrangements(7, 5) * 2,
            arrangements(7, 5) == 2520,
    ;
    assert(arrangements(7, 7) == 5040) by (nonlinear_arith)
        requires
            arrangements(7, 7) == arrangements(7, 6) * 1,
            arrangements(7, 6) == 5040,
    ;
    assert(arrangements(8, 0) == 1);
    assert(arrangements(8, 1) == 8) by (nonlinear_arith)
        requires
            arrangements(8, 1) == arrangements(8, 0) * 8,
            arrangements(8, 0) == 1,
    ;
    assert(arrangements(8, 2) == 56) by (nonlinear_arith)
        requires
            arrangements(8, 2) == arrangements(8, 1) * 7,
            arrangements(8, 1) == 8,
    ;
    assert(arrangements(8, 3) == 336) by (nonlinear_arith)
        requires
            arrangements(8, 3) == arrangements(8, 2) * 6,
            arrangements(8, 2) == 56,
    ;
    assert(arrangements(8, 4) == 1680) by (nonlinear_arith)
        requires
            arrangements(8, 4) == arrangements(8, 3) * 5,
            arrangements(8, 3) == 336,
    ;
    assert(arrangements(8, 5) == 6720) by (nonlinear_arith)
        requires
            arrangements(8, 5) == arrangements(8, 4) * 4,
            arrangements(8, 4) == 1680,
    ;
    assert(arrangements(8, 6) == 20160) by (nonlinear_arith)
        requires
            arrangements(8, 6) == arrangements(8, 5) * 3,
            arrangements(8, 5) == 6720,
    ;
    assert(arrangements(8, 7) == 40320) by (nonlinear_arith)
        requires
            arrangements(8, 7) == arrangements(8, 6) * 2,
            arrangements(8, 6) == 20160,
    ;
    assert(arrangements(8, 8) == 40320) by (nonlinear_arith)
        requires
            arrangements(8, 8) == arrangements(8, 7) * 1,
            arrangements(8, 7) == 40320,
    ;
    assert(combinations(1, 1) == 1);
    assert(combinations(2, 1) == 2);
    assert(combinations(2, 2) == 1);
    assert(combinations(3, 1) == 3);
    assert(combinations(3, 2) == 3);
    assert(combinations(3, 3) == 1);
    assert(combinations(4, 1) == 4);
    assert(combinations(4, 2) == 6);
    assert(combinations(4, 3) == 4);
    assert(combinations(4, 4) == 1);
    assert(combinations(5, 1) == 5);
    assert(combinations(5, 2) == 10);
    assert(combinations(5, 3) == 10);
    assert(combinations(5, 4) == 5);
    assert(combinations(5, 5) == 1);
    assert(combinations(6, 1) == 6);
    assert(combinations(6, 2) == 15);
    assert(combinations(6, 3) == 20);
    assert(combinations(6, 4) == 15);
    assert(combinations(6, 5) == 6);
    assert(combinations(6, 6) == 1);
    assert(combinations(7, 1) == 7);
    assert(combinations(7, 2) == 21);
    assert(combinations(7, 3) == 35);
    assert(combinations(7, 4) == 35);
    assert(combinations(7, 5) == 21);
    assert(combinations(7, 6) == 7);
    assert(combinations(7, 7) == 1);
    assert(combinations(8, 1) == 8);
    assert(combinations(8, 2) == 28);
    assert(combinations(8, 3) == 56);
    assert(combinations(8, 4) == 70);
    assert(combinations(8, 5) == 56);
    assert(combinations(8, 6) == 28);
    assert(combinations(8, 7) == 8);
    assert(combinations(8, 8) == 1);
}

/// Every pass type `m*n` of the table combines at most its `m` matches (a
/// flag at position `j` only where `j < m`, among eight flags), and with one
/// option per match it has exactly `n` bets: the sum of `C(m, k)` over its
/// flagged combined sizes `k` is `n`.
pub proof fn lemma_pass_levels_shape(m: char, n: char)
    requires
        pass_levels(m, n) is Some,
    ensures
        '1' <= m <= '8',
        pass_levels(m, n)->0.len() == 8,
        forall|j: int| 0 <= j < 8 && #[trigger] pass_levels(m, n)->0[j] ==> j < m as int - '0' as int,
        flagged_bets(m as int - '0' as int, pass_levels(m, n)->0) == n as int - '0' as int,
{
    lemma_small_combinations();
    if m == '1' && n == '1' {
        assert(flagged_bets(1, pass_levels('1', '1')->0) == 1 && last_flag(pass_levels('1', '1')->0) <= 1
            && pass_levels('1', '1')->0.len() == 8) by {
            reveal_with_fuel(flagged_bets, 9);
            reveal_with_fuel(last_flag, 9);
        }
    } else if m == '2' && n == '1' {
        assert(flagged_bets(2, pass_levels('2', '1')->0) == 1 && last_flag(pass_levels('2', '1')->0) <= 2
            && pass_levels('2', '1')->0.len() == 8) by {
            reveal_with_fuel(flagged_bets, 9);
            reveal_with_fuel(last_flag, 9);
        }
    } else if m == '3' && n == '1' {
        assert(flagged_bets(3, pass_levels('3', '1')->0) == 1 && last_flag(pass_levels('3', '1')->0) <= 3
            && pass_levels('3', '1')->0.len() == 8) by {
            reveal_with_fuel(flagged_bets, 9);
            reveal_with_fuel(last_flag, 9);
        }
    } else if m == '4' && n == '1' {
        assert(flagged_bets(4, pass_levels('4', '1')->0) == 1 && last_flag(pass_levels('4', '1')->0) <= 4
            && pass_levels('4', '1')->0.len() == 8) by {
            reveal_with_fuel(flagged_bets, 9);
            reveal_with_fuel(last_flag, 9);
        }
    } else if m == '5' && n == '1' {
        assert(flagged_bets(5, pass_levels('5', '1')->0) == 1 && last_flag(pass_levels('5', '1')->0) <= 5
            && pass_levels('5', '1')->0.len() == 8) by {
            reveal_with_fuel(flagged_bets, 9);
            reveal_with_fuel(last_flag, 9);
        }
    } else if m == '6' && n == '1' {
        assert(flagged_bets(6, pass_levels('6', '1')->0) == 1 && last_flag(pass_levels('6', '1')->0) <= 6
            && pass_levels('6', '1')->0.len() == 8) by {
            reveal_with_fuel(flagged_bets, 9);
            reveal_with_fuel(last_flag, 9);
        }
    } else if m == '7' && n == '1' {
        assert(flagged_bets(7, pass_levels('7', '1')->0) == 1 && last_flag(pass_levels('7', '1')->0) <= 7
            && pass_levels('7', '1')->0.len() == 8) by {
            reveal_with_fuel(flagged_bets, 9);
            reveal_with_fuel(last_flag, 9);
        }
    } else if m == '8' && n == '1' {
        assert(flagged_bets(8, pass_levels('8', '1')->0) == 1 && last_flag(pass_levels('8', '1')->0) <= 8
            && pass_levels('8', '1')->0.len() == 8) by {
            reveal_with_fuel(flagged_bets, 9);
            reveal_with_fuel(last_flag, 9);
        }
    } else if m == '2' && n == '3' {
        assert(flagged_bets(2, pass_levels('2', '3')->0) == 3 && last_flag(pass_levels('2', '3')->0) <= 2
            && pass_levels('2', '3')->0.len() == 8) by {
            reveal_with_fuel(flagged_bets, 9);
            reveal_with_fuel(last_flag, 9);
        }
    } else if m == '3' && n == '6' {
        assert(flagged_bets(3, pass_levels('3', '6')->0) == 6 && last_flag(pass_levels('3', '6')->0) <= 3
            && pass_levels('3', '6')->0.len() == 8) by {
            reveal_with_fuel(flagged_bets, 9);
            reveal_with_fuel(last_flag, 9);
        }
    } else if m == '3' && n == '7' {
        assert(flagged_bets(3, pass_levels('3', '7')->0) == 7 && last_flag(pass_levels('3', '7')->0) <= 3
            && pass_levels('3', '7')->0.len() == 8) by {
            reveal_with_fuel(flagged_bets, 9);
            reveal_with_fuel(last_flag, 9);
        }
    } else if m == '3' && n == '3' {
        assert(flagged_bets(3, pass_levels('3', '3')->0) == 3 && last_flag(pass_levels('3', '3')->0) <= 3
            && pass_levels('3', '3')->0.len() == 8) by {
            reveal_with_fuel(flagged_bets, 9);
            reveal_with_fuel(last_flag, 9);
        }
    } else if m == '3' && n == '4' {
        assert(flagged_bets(3, pass_levels('3', '4')->0) == 4 && last_flag(pass_levels('3', '4')->0) <= 3
            && pass_levels('3', '4')->0.len() == 8) by {
            reveal_with_fuel(flagged_bets, 9);
            reveal_with_fuel(last_flag, 9);
        }
    } else if m == '4' && n == '6' {
        assert(flagged_bets(4, pass_levels('4', '6')->0) == 6 && last_flag(pass_levels('4', '6')->0) <= 4
            && pass_levels('4', '6')->0.len() == 8) by {
            reveal_with_fuel(flagged_bets, 9);
            reveal_with_fuel(last_flag, 9);
        }
    } else if m == '4' && n == '4' {
        assert(flagged_bets(4, pass_levels('4', '4')->0) == 4 && last_flag(pass_levels('4', '4')->0) <= 4
            && pass_levels('4', '4')->0.len() == 8) by {
            reveal_with_fuel(flagged_bets, 9);
            reveal_with_fuel(last_flag, 9);
        }
    } else if m == '4' && n == '5' {
        assert(flagged_bets(4, pass_levels('4', '5')->0) == 5 && last_flag(pass_levels('4', '5')->0) <= 4
            && pass_levels('4', '5')->0.len() == 8) by {
            reveal_with_fuel(flagged_bets, 9);
            reveal_with_fuel(last_flag, 9);
        }
    } else if m == '5' && n == '5' {
        assert(flagged_bets(5, pass_levels('5', '5')->0) == 5 && last_flag(pass_levels('5', '5')->0) <= 5
            && pass_levels('5', '5')->0.len() == 8) by {
            reveal_with_fuel(flagged_bets, 9);
            reveal_with_fuel(last_flag, 9);
        }
    } else if m == '5' && n == '6' {
        assert(flagged_bets(5, pass_levels('5', '6')->0) == 6 && last_flag(pass_levels('5', '6')->0) <= 5
            && pass_levels('5', '6')->0.len() == 8) by {
            reveal_with_fuel(flagged_bets, 9);
            reveal_with_fuel(last_flag, 9);
        }
    } else if m == '6' && n == '6' {
        assert(flagged_bets(6, pass_levels('6', '6')->0) == 6 && last_flag(pass_levels('6', '6')->0) <= 6
            && pass_levels('6', '6')->0.len() == 8) by {
            reveal_with_fuel(flagged_bets, 9);
            reveal_with_fuel(last_flag, 9);
        }
    } else if m == '6' && n == '7' {
        assert(flagged_bets(6, pass_levels('6', '7')->0) == 7 && last_flag(pass_levels('6', '7')->0) <= 6
            && pass_levels('6', '7')->0.len() == 8) by {
            reveal_with_fuel(flagged_bets, 9);
            reveal_with_fuel(last_flag, 9);
        }
    } else if m == '7' && n == '7' {
        assert(flagged_bets(7, pass_levels('7', '7')->0) == 7 && last_flag(pass_levels('7', '7')->0) <= 7
            && pass_levels('7', '7')->0.len() == 8) by {
            reveal_with_fuel(flagged_bets, 9);
            reveal_with_fuel(last_flag, 9);
        }
    } else if m == '7' && n == '8' {
        assert(flagged_bets(7, pass_levels('7', '8')->0) == 8 && last_flag(pass_levels('7', '8')->0) <= 7
            && pass_levels('7', '8')->0.len() == 8) by {
            reveal_with_fuel(flagged_bets, 9);
            reveal_with_fuel(last_flag, 9);
        }
    } else if m == '8' && n == '8' {
        assert(flagged_bets(8, pass_levels('8', '8')->0) == 8 && last_flag(pass_levels('8', '8')->0) <= 8
            && pass_levels('8', '8')->0.len() == 8) by {
            reveal_with_fuel(flagged_bets, 9);
            reveal_with_fuel(last_flag, 9);
        }
    } else if m == '8' && n == '9' {
        assert(flagged_bets(8, pass_levels('8', '9')->0) == 9 && last_flag(pass_levels('8', '9')->0) <= 8
            && pass_levels('8', '9')->0.len() == 8) by {
            reveal_with_fuel(flagged_bets, 9);
            reveal_with_fuel(last_flag, 9);
        }
    }
    lemma_last_flag(pass_levels(m, n)->0);
}

/// The combined sizes flagged in `levels` (size `k` at position `k - 1`),
/// in increasing order.
pub open spec fn flagged_sizes(levels: Seq<bool>) -> Seq<int>
    decreases levels.len(),
{
    if levels.len() == 0 {
        Seq::empty()
    } else if levels.last() {
        flagged_sizes(levels.drop_last()).push(levels.len() as int)
    } else {
        flagged_sizes(levels.drop_last())
    }
}

/// The bets of all combinations of the sizes `ks` out of `m` matches with
/// `lens` options each: for each size, every combination of that many
/// matches contributes the product of their option counts.
pub open spec fn sizes_total(lens: Seq<i32>, m: int, ks: Seq<int>) -> int
    decreases ks.len(),
{
    if ks.len() == 0 {
        0
    } else {
        sizes_total(lens, m, ks.drop_last()) + sets_total(lens, combination_sets(m, ks.last() as nat))
    }
}

proof fn lemma_parlay_count_sizes(lens: Seq<i32>, m: int, levels: Seq<bool>)
    ensures
        parlay_count(lens, m, levels) == sizes_total(lens, m, flagged_sizes(levels)),
    decreases levels.len(),
{
    if levels.len() > 0 {
        lemma_parlay_count_sizes(lens, m, levels.drop_last());
        if levels.last() {
            let ks = flagged_sizes(levels.drop_last()).push(levels.len() as int);
            assert(ks.drop_last() =~= flagged_sizes(levels.drop_last()));
        }
    }
}

/// The pass types of the sports lottery and the combinations they are made
/// of, for any option counts `lens` of their matches: `m*1` is the one
/// combination of all `m` matches; `2*3` the singles and the double; `3*3`
/// the doubles; `3*4` the doubles and the treble; `3*6` the singles and
/// doubles; `3*7` singles, doubles and the treble; `4*4` the trebles; `4*5`
/// the trebles and the four-fold; `4*6` the doubles; and `m*m` for 5 to 8
/// matches every combination of `m - 1`, `m*(m+1)` those of `m - 1` and `m`.
pub proof fn lemma_pass_type_combinations(lens: Seq<i32>)
    ensures
        parlay_count(lens, 1, pass_levels('1', '1')->0) == sizes_total(lens, 1, seq![1int]),
        parlay_count(lens, 2, pass_levels('2', '1')->0) == sizes_total(lens, 2, seq![2int]),
        parlay_count(lens, 3, pass_levels('3', '1')->0) == sizes_total(lens, 3, seq![3int]),
        parlay_count(lens, 4, pass_levels('4', '1')->0) == sizes_total(lens, 4, seq![4int]),
        parlay_count(lens, 5, pass_levels('5', '1')->0) == sizes_total(lens, 5, seq![5int]),
        parlay_count(lens, 6, pass_levels('6', '1')->0) == sizes_total(lens, 6, seq![6int]),
        parlay_count(lens, 7, pass_levels('7', '1')->0) == sizes_total(lens, 7, seq![7int]),
        parlay_count(lens, 8, pass_levels('8', '1')->0) == sizes_total(lens, 8, seq![8int]),
        parlay_count(lens, 2, pass_levels('2', '3')->0) == sizes_total(lens, 2, seq![1int, 2]),
        parlay_count(lens, 3, pass_levels('3', '3')->0) == sizes_total(lens, 3, seq![2int]),
        parlay_count(lens, 3, pass_levels('3', '4')->0) == sizes_total(lens, 3, seq![2int, 3]),
        parlay_count(lens, 3, pass_levels('3', '6')->0) == sizes_total(lens, 3, seq![1int, 2]),
        parlay_count(lens, 3, pass_levels('3', '7')->0) == sizes_total(lens, 3, seq![1int, 2, 3]),
        parlay_count(lens, 4, pass_levels('4', '4')->0) == sizes_total(lens, 4, seq![3int]),
        parlay_count(lens, 4, pass_levels('4', '5')->0) == sizes_total(lens, 4, seq![3int, 4]),
        parlay_count(lens, 4, pass_levels('4', '6')->0) == sizes_total(lens, 4, seq![2int]),
        parlay_count(lens, 5, pass_levels('5', '5')->0) == sizes_total(lens, 5, seq![4int]),
        parlay_count(lens, 5, pass_levels('5', '6')->0) == sizes_total(lens, 5, seq![4int, 5]),
        parlay_count(lens, 6, pass_levels('6', '6')->0) == sizes_total(lens, 6, seq![5int]),
        parlay_count(lens, 6, pass_levels('6', '7')->0) == sizes_total(lens, 6, seq![5int, 6]),
        parlay_count(lens, 7, pass_levels('7', '7')->0) == sizes_total(lens, 7, seq![6int]),
        parlay_count(lens, 7, pass_levels('7', '8')->0) == sizes_total(lens, 7, seq![6int, 7]),
        parlay_count(lens, 8, pass_levels('8', '8')->0) == sizes_total(lens, 8, seq![7int]),
        parlay_count(lens, 8, pass_levels('8', '9')->0) == sizes_total(lens, 8, seq![7int, 8]),
{
    reveal_with_fuel(flagged_sizes, 9);
    lemma_parlay_count_sizes(lens, 1, pass_levels('1', '1')->0);
    assert(flagged_sizes(pass_levels('1', '1')->0) =~= seq![1int]);
    lemma_parlay_count_sizes(lens, 2, pass_levels('2', '1')->0);
    assert(flagged_sizes(pass_levels('2', '1')->0) =~= seq![2int]);
    lemma_parlay_count_sizes(lens, 3, pass_levels('3', '1')->0);
    assert(flagged_sizes(pass_levels('3', '1')->0) =~= seq![3int]);
    lemma_parlay_count_sizes(lens, 4, pass_levels('4', '1')->0);
    assert(flagged_sizes(pass_levels('4', '1')->0) =~= seq![4int]);
    lemma_parlay_count_sizes(lens, 5, pass_levels('5', '1')->0);
    assert(flagged_sizes(pass_levels('5', '1')->0) =~= seq![5int]);
    lemma_parlay_count_sizes(lens, 6, pass_levels('6', '1')->0);
    assert(flagged_sizes(pass_levels('6', '1')->0) =~= seq![6int]);
    lemma_parlay_count_sizes(lens, 7, pass_levels('7', '1')->0);
    assert(flagged_sizes(pass_levels('7', '1')->0) =~= seq![7int]);
    lemma_parlay_count_sizes(lens, 8, pass_levels('8', '1')->0);
    assert(flagged_sizes(pass_levels('8', '1')->0) =~= seq![8int]);
    lemma_parlay_count_sizes(lens, 2, pass_levels('2', '3')->0);
    assert(flagged_sizes(pass_levels('2', '3')->0) =~= seq![1int, 2]);
    lemma_parlay_count_sizes(lens, 3, pass_levels('3', '3')->0);
    assert(flagged_sizes(pass_levels('3', '3')->0) =~= seq![2int]);
    lemma_parlay_count_sizes(lens, 3, pass_levels('3', '4')->0);
    assert(flagged_sizes(pass_levels('3', '4')->0) =~= seq![2int, 3]);
    lemma_parlay_count_sizes(lens, 3, pass_levels('3', '6')->0);
    assert(flagged_sizes(pass_levels('3', '6')->0) =~= seq![1int, 2]);
    lemma_parlay_count_sizes(lens, 3, pass_levels('3', '7')->0);
    assert(flagged_sizes(pass_levels('3', '7')->0) =~= seq![1int, 2, 3]);
    lemma_parlay_count_sizes(lens, 4, pass_levels('4', '4')->0);
    assert(flagged_sizes(pass_levels('4', '4')->0) =~= seq![3int]);
    lemma_parlay_count_sizes(lens, 4, pass_levels('4', '5')->0);
    assert(flagged_sizes(pass_levels('4', '5')->0) =~= seq![3int, 4]);
    lemma_parlay_count_sizes(lens, 4, pass_levels('4', '6')->0);
    assert(flagged_sizes(pass_levels('4', '6')->0) =~= seq![2int]);
    lemma_parlay_count_sizes(lens, 5, pass_levels('5', '5')->0);
    assert(flagged_sizes(pass_levels('5', '5')->0) =~= seq![4int]);
    lemma_parlay_count_sizes(lens, 5, pass_levels('5', '6')->0);
    assert(flagged_sizes(pass_levels('5', '6')->0) =~= seq![4int, 5]);
    lemma_parlay_count_sizes(lens, 6, pass_levels('6', '6')->0);
    assert(flagged_sizes(pass_levels('6', '6')->0) =~= seq![5int]);
    lemma_parlay_count_sizes(lens, 6, pass_levels('6', '7')->0);
    assert(flagged_sizes(pass_levels('6', '7')->0) =~= seq![5int, 6]);
    lemma_parlay_count_sizes(lens, 7, pass_levels('7', '7')->0);
    assert(flagged_sizes(pass_levels('7', '7')->0) =~= seq![6int]);
    lemma_parlay_count_sizes(lens, 7, pass_levels('7', '8')->0);
    assert(flagged_sizes(pass_levels('7', '8')->0) =~= seq![6int, 7]);
    lemma_parlay_count_sizes(lens, 8, pass_levels('8', '8')->0);
    assert(flagged_sizes(pass_levels('8', '8')->0) =~= seq![7int]);
    lemma_parlay_count_sizes(lens, 8, pass_levels('8', '9')->0);
    assert(flagged_sizes(pass_levels('8', '9')->0) =~= seq![7int, 8]);
}

/// The flags of `pass_levels`.
pub fn get_pass_levels(m: char, n: char) -> (r: Option<Vec<bool>>)
    ensures
        r is None <==> pass_levels(m, n) is None,
        r matches Some(v) ==> v@ == pass_levels(m, n)->0,
{
    let t = true;
    let f = false;
    let r = if m == '1' && n == '1' { Some(vec![t, f, f, f, f, f, f, f]) }
    else if m == '2' && n == '1' { Some(vec![f, t, f, f, f, f, f, f]) }
    else if m == '3' && n == '1' { Some(vec![f, f, t, f, f, f, f, f]) }
    else if m == '4' && n == '1' { Some(vec![f, f, f, t, f, f, f, f]) }
    else if m == '5' && n == '1' { Some(vec![f, f, f, f, t, f, f, f]) }
    else if m == '6' && n == '1' { Some(vec![f, f, f, f, f, t, f, f]) }
    else if m == '7' && n == '1' { Some(vec![f, f, f, f, f, f, t, f]) }
    else if m == '8' && n == '1' { Some(vec![f, f, f, f, f, f, f, t]) }
    else if m == '2' && n == '3' { Some(vec![t, t, f, f, f, f, f, f]) }
    else if m == '3' && n == '6' { Some(vec![t, t, f, f, f, f, f, f]) }
    else if m == '3' && n == '7' { Some(vec![t, t, t, f, f, f, f, f]) }
    else if m == '3' && n == '3' { Some(vec![f, t, f, f, f, f, f, f]) }
    else if m == '3' && n == '4' { Some(vec![f, t, t, f, f, f, f, f]) }
    else if m == '4' && n == '6' { Some(vec![f, t, f, f, f, f, f, f]) }
    else if m == '4' && n == '4' { Some(vec![f, f, t, f, f, f, f, f]) }
    else if m == '4' && n == '5' { Some(vec![f, f, t, t, f, f, f, f]) }
    else if m == '5' && n == '5' { Some(vec![f, f, f, t, f, f, f, f]) }
    else if m == '5' && n == '6' { Some(vec![f, f, f, t, t, f, f, f]) }
    else if m == '6' && n == '6' { Some(vec![f, f, f, f, t, f, f, f]) }
    else if m == '6' && n == '7' { Some(vec![f, f, f, f, t, t, f, f]) }
    else if m == '7' && n == '7' { Some(vec![f, f, f, f, f, t, f, f]) }
    else if m == '7' && n == '8' { Some(vec![f, f, f, f, f, t, t, f]) }
    else if m == '8' && n == '8' { Some(vec![f, f, f, f, f, f, t, f]) }
    else if m == '8' && n == '9' { Some(vec![f, f, f, f, f, f, t, t]) }
    else { None };
    assert(r matches Some(v) ==> v@ =~= pass_levels(m, n)->0);
    r
}

/// Every option count is at least 1.
pub open spec fn lens_positive(lens: Seq<i32>) -> bool {
    forall|i: int| 0 <= i < lens.len() ==> #[trigger] lens[i] >= 1
}

/// No option count is negative.
pub open spec fn lens_nonnegative(lens: Seq<i32>) -> bool {
    forall|i: int| 0 <= i < lens.len() ==> #[trigger] lens[i] >= 0
}

/// Every match of `set` has at least one option.
pub open spec fn set_positive(lens: Seq<i32>, set: Seq<i64>) -> bool {
    forall|j: int| 0 <= j < set.len() ==> #[trigger] lens[set[j] as int] >= 1
}

/// Every combined size in use that is at most `m` needs `m` matches.
pub open spec fn levels_in_range(lens: Seq<i32>, m: int, levels: Seq<bool>) -> bool {
    forall|k: int| 0 <= k < levels.len() && #[trigger] levels[k] && k < m ==> m <= lens.len()
}

/// All entries of `set` index `lens`.
pub open spec fn set_in_range(lens: Seq<i32>, set: Seq<i64>) -> bool {
    forall|j: int| 0 <= j < set.len() ==> 0 <= #[trigger] set[j] < lens.len()
}

proof fn lemma_set_product_mono(lens: Seq<i32>, set: Seq<i64>, k: int)
    requires
        set_positive(lens, set),
        set_in_range(lens, set),
        0 <= k <= set.len(),
    ensures
        1 <= set_product(lens, set.take(k)) <= set_product(lens, set),
    decreases set.len(),
{
    if k < set.len() {
        let d = set.drop_last();
        assert(set_in_range(lens, d)) by {
            assert forall|j: int| 0 <= j < d.len() implies 0 <= #[trigger] d[j] < lens.len() by {
                assert(d[j] == set[j]);
            }
        }
        assert(set_positive(lens, d)) by {
            assert forall|j: int| 0 <= j < d.len() implies #[trigger] lens[d[j] as int] >= 1 by {
                assert(d[j] == set[j]);
            }
        }
        assert(d.take(k) =~= set.take(k));
        lemma_set_product_mono(lens, d, k);
        lemma_set_product_mono(lens, d, d.len() as int);
        assert(d.take(d.len() as int) =~= d);
        let x = set_product(lens, d);
        let y = lens[set.last() as int] as int;
        assert(set.last() == set[set.len() - 1]);
        assert(y >= 1);
        assert(x <= x * y) by (nonlinear_arith)
            requires
                x >= 1,
                y >= 1,
        ;
    } else {
        assert(set.take(k) =~= set);
        if set.len() > 0 {
            let d = set.drop_last();
            assert(set_in_range(lens, d)) by {
                assert forall|j: int| 0 <= j < d.len() implies 0 <= #[trigger] d[j] < lens.len() by {
                    assert(d[j] == set[j]);
                }
            }
            assert(set_positive(lens, d)) by {
                assert forall|j: int| 0 <= j < d.len() implies #[trigger] lens[d[j] as int] >= 1 by {
                    assert(d[j] == set[j]);
                }
            }
            lemma_set_product_mono(lens, d, d.len() as int);
            assert(d.take(d.len() as int) =~= d);
            let x = set_product(lens, d);
            let y = lens[set.last() as int] as int;
            assert(set.last() == set[set.len() - 1]);
            assert(x * y >= 1) by (nonlinear_arith)
                requires
                    x >= 1,
                    y >= 1,
            ;
        }
    }
}

proof fn lemma_set_product_nonneg(lens: Seq<i32>, set: Seq<i64>)
    requires
        lens_nonnegative(lens),
        set_in_range(lens, set),
    ensures
        set_product(lens, set) >= 0,
    decreases set.len(),
{
    if set.len() > 0 {
        let d = set.drop_last();
        assert(set_in_range(lens, d)) by {
            assert forall|j: int| 0 <= j < d.len() implies 0 <= #[trigger] d[j] < lens.len() by {
                assert(d[j] == set[j]);
            }
        }
        lemma_set_product_nonneg(lens, d);
        assert(set.last() == set[set.len() - 1]);
        let x = set_product(lens, d);
        let y = lens[set.last() as int] as int;
        assert(y >= 0);
        assert(x * y >= 0) by (nonlinear_arith)
            requires
                x >= 0,
                y >= 0,
        ;
    }
}

proof fn lemma_set_product_zero(lens: Seq<i32>, set: Seq<i64>, j: int)
    requires
        set_in_range(lens, set),
        0 <= j < set.len(),
        lens[set[j] as int] == 0,
    ensures
        set_product(lens, set) == 0,
    decreases set.len(),
{
    let d = set.drop_last();
    let y = lens[set.last() as int] as int;
    assert(set.last() == set[set.len() - 1]);
    if j == set.len() - 1 {
        assert(set_product(lens, d) * 0 == 0) by (nonlinear_arith);
    } else {
        assert(set_in_range(lens, d)) by {
            assert forall|i: int| 0 <= i < d.len() implies 0 <= #[trigger] d[i] < lens.len() by {
                assert(d[i] == set[i]);
            }
        }
        assert(d[j] == set[j]);
        lemma_set_product_zero(lens, d, j);
        assert(0 * y == 0) by (nonlinear_arith);
    }
}

/// All sets index `lens`.
pub open spec fn sets_in_range(lens: Seq<i32>, sets: Seq<Seq<i64>>) -> bool {
    forall|i: int| 0 <= i < sets.len() ==> set_in_range(lens, #[trigger] sets[i])
}

proof fn lemma_sets_total_mono(lens: Seq<i32>, sets: Seq<Seq<i64>>, k: int)
    requires
        lens_nonnegative(lens),
        sets_in_range(lens, sets),
        0 <= k <= sets.len(),
    ensures
        0 <= sets_total(lens, sets.take(k)) <= sets_total(lens, sets),
    decreases sets.len(),
{
    if sets.len() > 0 {
        let d = sets.drop_last();
        assert(sets_in_range(lens, d)) by {
            assert forall|i: int| 0 <= i < d.len() implies set_in_range(lens, #[trigger] d[i]) by {
                assert(d[i] == sets[i]);
            }
        }
        assert(set_in_range(lens, sets[sets.len() - 1]));
        lemma_set_product_nonneg(lens, sets.last());
        if k < sets.len() {
            assert(d.take(k) =~= sets.take(k));
            lemma_sets_total_mono(lens, d, k);
        } else {
            assert(sets.take(k) =~= sets);
            lemma_sets_total_mono(lens, d, d.len() as int);
            assert(d.take(d.len() as int) =~= d);
        }
    } else {
        assert(sets.take(k) =~= sets);
    }
}

/// The sets of `combination_sets(m, n)` index `lens` where `m` matches exist.
proof fn lemma_combination_sets_in_range(lens: Seq<i32>, m: int, n: nat)
    requires
        0 <= m <= lens.len(),
        m <= i64::MAX,
    ensures
        sets_in_range(lens, combination_sets(m, n)),
{
    lemma_increasing_from_bounds(0, m, n);
    let sets = combination_sets(m, n);
    assert forall|i: int| 0 <= i < sets.len() implies set_in_range(lens, #[trigger] sets[i]) by {
        assert forall|j: int| 0 <= j < sets[i].len() implies 0 <= #[trigger] sets[i][j] < lens.len() by {
            assert(0 <= sets[i][j] < m);
        }
    }
}


proof fn lemma_level_total(lens: Seq<i32>, m: int, levels: Seq<bool>, k: int)
    requires
        lens_nonnegative(lens),
        levels_in_range(lens, m, levels),
        0 <= m <= i64::MAX,
        0 <= k < levels.len(),
        levels[k],
    ensures
        sets_in_range(lens, combination_sets(m, (k + 1) as nat)),
        sets_total(lens, combination_sets(m, (k + 1) as nat)) >= 0,
{
    if k < m {
        lemma_combination_sets_in_range(lens, m, (k + 1) as nat);
    } else {
        lemma_no_sets(0, m, (k + 1) as nat);
        assert(combination_sets(m, (k + 1) as nat) =~= Seq::<Seq<i64>>::empty());
    }
    let sets = combination_sets(m, (k + 1) as nat);
    lemma_sets_total_mono(lens, sets, 0);
    assert(sets.take(0) =~= Seq::<Seq<i64>>::empty());
}

proof fn lemma_parlay_mono(lens: Seq<i32>, m: int, levels: Seq<bool>, k: int)
    requires
        lens_nonnegative(lens),
        levels_in_range(lens, m, levels),
        0 <= m <= i64::MAX,
        0 <= k <= levels.len(),
    ensures
        0 <= parlay_count(lens, m, levels.take(k)) <= parlay_count(lens, m, levels),
    decreases levels.len(),
{
    if levels.len() > 0 {
        let d = levels.drop_last();
        assert(levels_in_range(lens, m, d)) by {
            assert forall|j: int| 0 <= j < d.len() && #[trigger] d[j] && j < m implies m <= lens.len() by {
                assert(d[j] == levels[j]);
            }
        }
        if levels.last() {
            lemma_level_total(lens, m, levels, levels.len() - 1);
        }
        if k < levels.len() {
            assert(d.take(k) =~= levels.take(k));
            lemma_parlay_mono(lens, m, d, k);
        } else {
            assert(levels.take(k) =~= levels);
            lemma_parlay_mono(lens, m, d, d.len() as int);
            assert(d.take(d.len() as int) =~= d);
        }
    } else {
        assert(levels.take(k) =~= levels);
    }
}

/// The number of bets of a parlay of matches with `lens` options each and
/// the pass type whose sizes are `levels`.
pub fn get_count(lens: &Vec<i32>, m: i64, levels: &Vec<bool>) -> (count: i32)
    requires
        lens_nonnegative(lens@),
        0 <= m,
        levels_in_range(lens@, m as int, levels@),
        parlay_count(lens@, m as int, levels@) <= i32::MAX,
        levels@.len() < i64::MAX,
    ensures
        count == parlay_count(lens@, m as int, levels@),
{
    let lens_len = lens.len();
    let mut count: i32 = 0;
    let mut index: usize = 0;
    while index < levels.len()
        invariant
            lens@.len() == lens_len,
            index <= levels@.len(),
            lens_nonnegative(lens@),
            0 <= m,
            levels_in_range(lens@, m as int, levels@),
            parlay_count(lens@, m as int, levels@) <= i32::MAX,
            levels@.len() < i64::MAX,
            count == parlay_count(lens@, m as int, levels@.take(index as int)),
        decreases levels@.len() - index,
    {
        proof {
            assert(levels@.take(index + 1).drop_last() =~= levels@.take(index as int));
            assert(levels@.take(index + 1).last() == levels@[index as int]);
            lemma_parlay_mono(lens@, m as int, levels@, index + 1);
            lemma_parlay_mono(lens@, m as int, levels@, index as int);
        }
        if levels[index] {
            let ghost sets = combination_sets(m as int, (index + 1) as nat);
            proof {
                lemma_level_total(lens@, m as int, levels@, index as int);
            }
            let dc = MathUtil::get_detailc(m, index as i64 + 1);
            let ghost base = count as int;
            let mut si: usize = 0;
            assert(sets.take(0) =~= Seq::<Seq<i64>>::empty());
            while si < dc.data.len()
                invariant
                    lens@.len() == lens_len,
                    dc@ == sets,
                    si <= dc.data@.len(),
                    lens_nonnegative(lens@),
                    sets_in_range(lens@, sets),
                    base + sets_total(lens@, sets) <= i32::MAX,
                    base >= 0,
                    count == base + sets_total(lens@, sets.take(si as int)),
                decreases dc.data@.len() - si,
            {
                let set = &dc.data[si];
                assert(set@ == sets[si as int]);
                assert(set_in_range(lens@, set@));
                proof {
                    assert(sets.take(si + 1).drop_last() =~= sets.take(si as int));
                    lemma_sets_total_mono(lens@, sets, si + 1);
                    lemma_sets_total_mono(lens@, sets, si as int);
                }
                let mut has_zero = false;
                let mut zero_at: usize = 0;
                let mut z: usize = 0;
                while z < set.len() && !has_zero
                    invariant
                        lens@.len() == lens_len,
                        z <= set@.len(),
                        set_in_range(lens@, set@),
                        lens_nonnegative(lens@),
                        has_zero ==> zero_at < set@.len() && lens@[set@[zero_at as int] as int] == 0,
                        !has_zero ==> forall|j: int| 0 <= j < z ==> #[trigger] lens@[set@[j] as int] >= 1,
                    decreases set@.len() - z, if has_zero { 0int } else { 1int },
                {
                    let zi = set[z] as usize;
                    assert(zi as int == set@[z as int] as int);
                    if lens[zi] == 0 {
                        has_zero = true;
                        zero_at = z;
                    } else {
                        z = z + 1;
                    }
                }
                let mut cur: i32 = 1;
                if has_zero {
                    proof {
                        lemma_set_product_zero(lens@, set@, zero_at as int);
                    }
                    cur = 0;
                } else {
                    proof {
                        lemma_set_product_mono(lens@, set@, set@.len() as int);
                        assert(set@.take(set@.len() as int) =~= set@);
                    }
                    let mut k: usize = 0;
                    assert(set@.take(0) =~= Seq::<i64>::empty());
                    while k < set.len()
                        invariant
                            lens@.len() == lens_len,
                            k <= set@.len(),
                            set_positive(lens@, set@),
                            set_in_range(lens@, set@),
                            set_product(lens@, set@) <= i32::MAX,
                            cur == set_product(lens@, set@.take(k as int)),
                        decreases set@.len() - k,
                    {
                        proof {
                            assert(set@.take(k + 1).drop_last() =~= set@.take(k as int));
                            lemma_set_product_mono(lens@, set@, k + 1);
                        }
                        let idx = set[k];
                        assert(0 <= idx < lens@.len());
                        assert(set@.take(k + 1).last() == idx);
                        assert(set_product(lens@, set@.take(k + 1)) == set_product(lens@, set@.take(k as int)) * lens@[idx as int]);
                        let ui = idx as usize;
                        assert(ui as int == idx as int);
                        let li = lens[ui];
                        assert(li == lens@[idx as int]);
                        assert(cur * li == set_product(lens@, set@.take(k + 1)));
                        cur = cur * li;
                        k = k + 1;
                    }
                    assert(set@.take(set@.len() as int) =~= set@);
                }
                count = count + cur;
                si = si + 1;
            }
            assert(sets.take(dc.data@.len() as int) =~= sets);
        }
        index = index + 1;
    }
    assert(levels@.take(levels@.len() as int) =~= levels@);
    count
}

/// All `m - lo` indices from `lo` below `m` form a single increasing set.
proof fn lemma_increasing_full(lo: int, m: int)
    requires
        0 <= lo <= m <= i64::MAX,
    ensures
        increasing_from(lo, m, (m - lo) as nat) == seq![Seq::new((m - lo) as nat, |i: int| (lo + i) as i64)],
    decreases m - lo,
{
    let n = (m - lo) as nat;
    let full = Seq::new(n, |i: int| (lo + i) as i64);
    if lo < m {
        lemma_increasing_full(lo + 1, m);
        lemma_no_sets(lo + 1, m, n);
        let c = increasing_from(lo + 1, m, (n - 1) as nat);
        let rest = Seq::new((n - 1) as nat, |i: int| (lo + 1 + i) as i64);
        assert(c == seq![rest]);
        let h = c.map_values(|t: Seq<i64>| seq![lo as i64] + t);
        assert(h[0] =~= full);
        assert(h =~= seq![full]);
        assert(increasing_from(lo + 1, m, n) =~= Seq::<Seq<i64>>::empty());
        assert(increasing_from(lo, m, n) =~= seq![full]);
    } else {
        assert(full =~= Seq::<i64>::empty());
    }
}

/// Levels with no flag set count nothing.
proof fn lemma_no_levels(lens: Seq<i32>, m: int, levels: Seq<bool>)
    requires
        forall|i: int| 0 <= i < levels.len() ==> !levels[i],
    ensures
        parlay_count(lens, m, levels) == 0,
    decreases levels.len(),
{
    if levels.len() > 0 {
        lemma_no_levels(lens, m, levels.drop_last());
    }
}

/// With the single level `k + 1` set, a parlay counts the `(k + 1)`-subsets.
proof fn lemma_single_level(lens: Seq<i32>, m: int, levels: Seq<bool>, k: int)
    requires
        0 <= k < levels.len(),
        forall|i: int| 0 <= i < levels.len() ==> levels[i] == (i == k),
    ensures
        parlay_count(lens, m, levels) == sets_total(lens, combination_sets(m, (k + 1) as nat)),
    decreases levels.len(),
{
    let d = levels.drop_last();
    if k == levels.len() - 1 {
        lemma_no_levels(lens, m, d);
    } else {
        lemma_single_level(lens, m, d, k);
    }
}

/// A parlay `m*1` of `m` matches has one bet for each choice of one option
/// in every match: the product of the matches' option counts.
pub proof fn lemma_parlay_m_by_1(lens: Seq<i32>, m: char)
    requires
        '1' <= m <= '8',
        lens.len() == m as int - '0' as int,
    ensures
        pass_levels(m, '1') is Some,
        parlay_count(lens, lens.len() as int, pass_levels(m, '1')->0) == set_product(
            lens,
            Seq::new(lens.len(), |i: int| i as i64),
        ),
{
    let n = lens.len() as int;
    let levels = pass_levels(m, '1')->0;
    assert(forall|i: int| 0 <= i < levels.len() ==> levels[i] == (i == n - 1));
    lemma_single_level(lens, n, levels, n - 1);
    lemma_increasing_full(0, n);
    let full = Seq::new(n as nat, |i: int| (0 + i) as i64);
    assert(full =~= Seq::new(lens.len(), |i: int| i as i64));
    let sets = combination_sets(n, n as nat);
    assert(sets == seq![full]);
    assert(sets.drop_last() =~= Seq::<Seq<i64>>::empty());
    assert(sets.last() == full);
    assert(sets_total(lens, sets) == sets_total(lens, sets.drop_last()) + set_product(lens, sets.last()));
    assert(sets_total(lens, sets) == set_product(lens, full));
    assert(((n - 1) + 1) as nat == n as nat);
}

} // verus!
