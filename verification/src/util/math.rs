use vstd::prelude::*;

verus! {

/// `A(m, n) = m * (m - 1) * ... * (m - n + 1)`; the empty product (`n <= 0`) is 1.
pub open spec fn arrangements(m: int, n: int) -> int
    decreases n,
{
    if n <= 0 {
        1
    } else {
        arrangements(m, n - 1) * (m - (n - 1))
    }
}

/// Every partial product of `A(m, n)`, and every factor of it, fits in an `i64`.
pub open spec fn arrangements_fit(m: int, n: int) -> bool {
    &&& forall|k: int| 0 <= k <= n ==> i64::MIN <= #[trigger] arrangements(m, k) <= i64::MAX
    &&& n > 0 ==> i64::MIN <= m - (n - 1)
}

/// `C(m, n)` as `A(m, n) / A(n, n)`, and 0 where `n` is out of `0..=m`.
pub open spec fn combinations(m: int, n: int) -> int {
    if m < n || n < 0 {
        0
    } else {
        arrangements(m, n) / arrangements(n, n)
    }
}

pub proof fn lemma_arrangements_nonneg(m: int, n: int)
    requires
        0 <= n <= m,
    ensures
        arrangements(m, n) >= 0,
        m == n ==> arrangements(m, n) >= 1,
    decreases n,
{
    if n > 0 {
        lemma_arrangements_nonneg(m, n - 1);
        assert(arrangements(m, n - 1) * (m - (n - 1)) >= 0) by (nonlinear_arith)
            requires
                arrangements(m, n - 1) >= 0,
                m - (n - 1) >= 1,
        ;
        if m == n {
            lemma_arrangements_pos(m, n - 1);
            assert(arrangements(m, n - 1) * (m - (n - 1)) >= 1) by (nonlinear_arith)
                requires
                    arrangements(m, n - 1) >= 1,
                    m - (n - 1) >= 1,
            ;
        }
    }
}

proof fn lemma_arrangements_pos(m: int, n: int)
    requires
        0 <= n <= m,
    ensures
        arrangements(m, n) >= 1,
    decreases n,
{
    if n > 0 {
        lemma_arrangements_pos(m, n - 1);
        assert(arrangements(m, n - 1) * (m - (n - 1)) >= 1) by (nonlinear_arith)
            requires
                arrangements(m, n - 1) >= 1,
                m - (n - 1) >= 1,
        ;
    }
}


/// All strictly increasing sequences of length `n` whose entries lie in `lo..m`,
/// in lexicographic order.
pub open spec fn increasing_from(lo: int, m: int, n: nat) -> Seq<Seq<i64>>
    decreases n, (if lo < m { m - lo } else { 0 }),
{
    if n == 0 {
        seq![Seq::<i64>::empty()]
    } else if lo >= m {
        Seq::empty()
    } else {
        increasing_from(lo + 1, m, (n - 1) as nat).map_values(|s: Seq<i64>| seq![lo as i64] + s)
            + increasing_from(lo + 1, m, n)
    }
}

/// The `n`-combinations of `0..m` as index sets, in lexicographic order.
pub open spec fn combination_sets(m: int, n: nat) -> Seq<Seq<i64>> {
    increasing_from(0, m, n)
}

/// Every sequence of `sets` between `prefix` and `suffix`.
pub open spec fn framed(prefix: Seq<i64>, sets: Seq<Seq<i64>>, suffix: Seq<i64>) -> Seq<Seq<i64>> {
    sets.map_values(|s: Seq<i64>| prefix + s + suffix)
}

/// The first value that a record filled from `level` may take: one above
/// the entry before `level`, or 0 at the start.
pub open spec fn record_start(data: Seq<i64>, level: int) -> int {
    if level > 0 {
        data[level - 1] + 1
    } else {
        0
    }
}

/// The deepest entries that filling `n` entries from `level` with values
/// from `start` below `m` writes: as many as there are such values, up to `n`.
pub open spec fn record_depth(n: int, start: int, m: int) -> int {
    if m - start <= 0 {
        0
    } else if n <= m - start {
        n
    } else {
        m - start
    }
}



/// `b` to the power `e`, for `e >= 0`.
pub open spec fn power(b: int, e: int) -> int
    decreases e,
{
    if e <= 0 {
        1
    } else {
        power(b, e - 1) * b
    }
}

/// `A(m, k) <= b^k` where `0 <= k <= m <= b`.
pub proof fn lemma_arrangements_upper(m: int, k: int, b: int)
    requires
        0 <= k <= m <= b,
    ensures
        0 <= arrangements(m, k) <= power(b, k),
    decreases k,
{
    if k > 0 {
        lemma_arrangements_upper(m, k - 1, b);
        let x = arrangements(m, k - 1);
        let y = m - (k - 1);
        let bx = power(b, k - 1);
        assert(0 <= x * y <= bx * b) by (nonlinear_arith)
            requires
                0 <= x <= bx,
                1 <= y <= b,
        ;
    }
}

/// `A(m, k)` fits an `i64` for the sizes of the number games: at most 5
/// picks out of at most 35 numbers.
pub proof fn lemma_small_arrangements_fit(m: int, n: int)
    requires
        0 <= n <= m <= 35,
        n <= 5,
    ensures
        arrangements_fit(m, n),
        arrangements_fit(n, n),
        0 <= arrangements(m, n) <= 52521875,
        1 <= arrangements(n, n) <= 120,
{
    assert(power(35, 0) == 1 && power(35, 1) == 35 && power(35, 2) == 1225 && power(35, 3) == 42875
        && power(35, 4) == 1500625 && power(35, 5) == 52521875) by {
        reveal_with_fuel(power, 6);
    }
    assert forall|k: int| 0 <= k <= n implies i64::MIN <= #[trigger] arrangements(m, k) <= 52521875 by {
        lemma_arrangements_upper(m, k, 35);
    }
    assert forall|k: int| 0 <= k <= n implies i64::MIN <= #[trigger] arrangements(n, k) <= 52521875 by {
        lemma_arrangements_upper(n, k, 35);
    }
    assert(arrangements(0, 0) == 1 && arrangements(1, 1) == 1 && arrangements(2, 2) == 2 && arrangements(3, 3) == 6
        && arrangements(4, 4) == 24 && arrangements(5, 5) == 120) by {
        reveal_with_fuel(arrangements, 6);
    }
    lemma_arrangements_upper(m, n, 35);
}

/// `C(m, n)` for the sizes of the number games: at most 5 picks out of at
/// most 35 numbers gives at most `C(35, 5) = 324632`.
pub proof fn lemma_small_combinations(m: int, n: int)
    requires
        0 <= m <= 35,
        n <= 5,
    ensures
        0 <= combinations(m, n) <= 52521875,
{
    if 0 <= n <= m {
        lemma_small_arrangements_fit(m, n);
        let a = arrangements(m, n);
        let b = arrangements(n, n);
        assert(0 <= a / b <= a) by (nonlinear_arith)
            requires
                0 <= a,
                1 <= b,
        ;
    }
}

/// How many elements of `b` equal `x`.
pub open spec fn occurrences(b: Seq<i32>, x: i32) -> nat
    decreases b.len(),
{
    if b.len() == 0 {
        0
    } else {
        occurrences(b.drop_last(), x) + if b.last() == x { 1nat } else { 0nat }
    }
}

/// The number of equal pairs `(a[i], b[j])`.
pub open spec fn hit_count(a: Seq<i32>, b: Seq<i32>) -> nat
    decreases a.len(),
{
    if a.len() == 0 {
        0
    } else {
        hit_count(a.drop_last(), b) + occurrences(b, a.last())
    }
}


/// Nothing is hit in an empty list.
proof fn lemma_hit_count_empty(a: Seq<i32>)
    ensures
        hit_count(a, Seq::<i32>::empty()) == 0,
    decreases a.len(),
{
    if a.len() > 0 {
        lemma_hit_count_empty(a.drop_last());
    }
}

/// One more element `y` in `b` adds the occurrences of `y` in `a`.
proof fn lemma_hit_count_push(a: Seq<i32>, b: Seq<i32>, y: i32)
    ensures
        hit_count(a, b.push(y)) == hit_count(a, b) + occurrences(a, y),
    decreases a.len(),
{
    if a.len() > 0 {
        lemma_hit_count_push(a.drop_last(), b, y);
        assert(b.push(y).drop_last() =~= b);
    }
}

/// The hits of `a` in `b` are the hits of `b` in `a`: `get_hit_count` counts
/// the equal pairs, whichever list comes first.
pub proof fn lemma_hit_count_symmetric(a: Seq<i32>, b: Seq<i32>)
    ensures
        hit_count(a, b) == hit_count(b, a),
    decreases b.len(),
{
    if b.len() == 0 {
        lemma_hit_count_empty(a);
        assert(b =~= Seq::<i32>::empty());
    } else {
        let y = b.last();
        let c = b.drop_last();
        assert(c.push(y) =~= b);
        lemma_hit_count_symmetric(a, c);
        lemma_hit_count_push(a, c, y);
        assert(hit_count(a, b) == hit_count(a, c) + occurrences(a, y));
        assert(hit_count(b, a) == hit_count(c, a) + occurrences(a, y));
    }
}

/// At most one hit per pair.
pub proof fn lemma_hit_count_bound(a: Seq<i32>, b: Seq<i32>)
    ensures
        hit_count(a, b) <= a.len() * b.len(),
    decreases a.len(),
{
    if a.len() > 0 {
        lemma_hit_count_bound(a.drop_last(), b);
        lemma_occurrences_bound(b, a.last());
        assert((a.len() - 1) * b.len() + b.len() == a.len() * b.len()) by (nonlinear_arith);
    }
}

proof fn lemma_occurrences_bound(b: Seq<i32>, x: i32)
    ensures
        occurrences(b, x) <= b.len(),
    decreases b.len(),
{
    if b.len() > 0 {
        lemma_occurrences_bound(b.drop_last(), x);
    }
}

proof fn lemma_hit_count_prefix(a: Seq<i32>, b: Seq<i32>, k: int)
    requires
        0 <= k <= a.len(),
    ensures
        hit_count(a.take(k), b) <= hit_count(a, b),
    decreases a.len(),
{
    if k < a.len() {
        assert(a.drop_last().take(k) =~= a.take(k));
        lemma_hit_count_prefix(a.drop_last(), b, k);
    } else {
        assert(a.take(k) =~= a);
    }
}

proof fn lemma_occurrences_prefix(b: Seq<i32>, x: i32, k: int)
    requires
        0 <= k <= b.len(),
    ensures
        occurrences(b.take(k), x) <= occurrences(b, x),
    decreases b.len(),
{
    if k < b.len() {
        assert(b.drop_last().take(k) =~= b.take(k));
        lemma_occurrences_prefix(b.drop_last(), x, k);
    } else {
        assert(b.take(k) =~= b);
    }
}


/// The sets of `increasing_from(lo, m, n)` have `n` entries, each in `lo..m`.
pub proof fn lemma_increasing_from_bounds(lo: int, m: int, n: nat)
    requires
        i64::MIN <= lo,
        m <= i64::MAX,
    ensures
        forall|i: int| 0 <= i < increasing_from(lo, m, n).len() ==> (#[trigger] increasing_from(lo, m, n)[i]).len() == n,
        forall|i: int, j: int|
            0 <= i < increasing_from(lo, m, n).len() && 0 <= j < increasing_from(lo, m, n)[i].len() ==> lo <= #[trigger] increasing_from(lo, m, n)[i][j] < m,
    decreases n, (if lo < m { m - lo } else { 0 }),
{
    if n > 0 && lo < m {
        lemma_increasing_from_bounds(lo + 1, m, (n - 1) as nat);
        lemma_increasing_from_bounds(lo + 1, m, n);
        let c = increasing_from(lo + 1, m, (n - 1) as nat);
        let h = c.map_values(|s: Seq<i64>| seq![lo as i64] + s);
        let r = increasing_from(lo + 1, m, n);
        let all = increasing_from(lo, m, n);
        assert(all == h + r);
        assert forall|i: int| 0 <= i < all.len() implies (#[trigger] all[i]).len() == n by {
            if i < h.len() {
                assert(all[i] == seq![lo as i64] + c[i]);
            } else {
                assert(all[i] == r[i - h.len()]);
            }
        }
        assert forall|i: int, j: int| 0 <= i < all.len() && 0 <= j < all[i].len() implies lo <= #[trigger] all[i][j] < m by {
            if i < h.len() {
                assert(all[i] == seq![lo as i64] + c[i]);
                if j > 0 {
                    assert(all[i][j] == c[i][j - 1]);
                }
            } else {
                assert(all[i] == r[i - h.len()]);
            }
        }
    }
}

/// Every record of `MathUtil::get_detailc(m, n)` is a choice of `n` distinct
/// indices below `m`, in increasing order.
pub proof fn lemma_detailc_sets_increasing(m: int, n: nat)
    requires
        0 <= m <= i64::MAX,
    ensures
        forall|i: int, j: int, k: int|
            0 <= i < combination_sets(m, n).len() && 0 <= j < k < combination_sets(m, n)[i].len()
                ==> #[trigger] combination_sets(m, n)[i][j] < #[trigger] combination_sets(m, n)[i][k],
        forall|i: int, j: int|
            0 <= i < combination_sets(m, n).len() && 0 <= j < combination_sets(m, n)[i].len() ==> 0
                <= #[trigger] combination_sets(m, n)[i][j] < m,
        forall|i: int| 0 <= i < combination_sets(m, n).len() ==> (#[trigger] combination_sets(m, n)[i]).len() == n,
{
    lemma_increasing_from_strict(0, m, n);
    lemma_increasing_from_bounds(0, m, n);
}

/// The sequences of `increasing_from(lo, m, n)` are strictly increasing.
proof fn lemma_increasing_from_strict(lo: int, m: int, n: nat)
    requires
        0 <= lo,
        m <= i64::MAX,
    ensures
        forall|i: int, j: int, k: int|
            0 <= i < increasing_from(lo, m, n).len() && 0 <= j < k < increasing_from(lo, m, n)[i].len()
                ==> #[trigger] increasing_from(lo, m, n)[i][j] < #[trigger] increasing_from(lo, m, n)[i][k],
    decreases n, (if lo < m { m - lo } else { 0 }),
{
    if n > 0 && lo < m {
        lemma_increasing_from_strict(lo + 1, m, (n - 1) as nat);
        lemma_increasing_from_strict(lo + 1, m, n);
        lemma_increasing_from_bounds(lo + 1, m, (n - 1) as nat);
        let c = increasing_from(lo + 1, m, (n - 1) as nat);
        let h = c.map_values(|s: Seq<i64>| seq![lo as i64] + s);
        let r = increasing_from(lo + 1, m, n);
        let all = increasing_from(lo, m, n);
        assert(all == h + r);
        assert forall|i: int, j: int, k: int| 0 <= i < all.len() && 0 <= j < k < all[i].len() implies #[trigger] all[i][j]
            < #[trigger] all[i][k] by {
            if i < h.len() {
                assert(all[i] == seq![lo as i64] + c[i]);
                assert(all[i][k] == c[i][k - 1]);
                if j > 0 {
                    assert(all[i][j] == c[i][j - 1]);
                } else {
                    assert(all[i][j] == lo as i64);
                    assert(lo + 1 <= c[i][k - 1]);
                }
            } else {
                assert(all[i] == r[i - h.len()]);
            }
        }
    }
}

/// With more than `m - lo` picks, there are no increasing sequences.
pub proof fn lemma_no_sets(lo: int, m: int, n: nat)
    requires
        n > 0,
        n > m - lo,
    ensures
        increasing_from(lo, m, n).len() == 0,
    decreases n, (if lo < m { m - lo } else { 0 }),
{
    if n > 0 && lo < m {
        if n - 1 > 0 {
            lemma_no_sets(lo + 1, m, (n - 1) as nat);
        }
        lemma_no_sets(lo + 1, m, n);
    }
}

/// The number of ways to choose `n` of `k` items, by Pascal's rule.
pub open spec fn binomial(k: int, n: nat) -> int
    decreases n, (if k > 0 { k } else { 0 }),
{
    if n == 0 {
        1
    } else if k <= 0 {
        0
    } else {
        binomial(k - 1, (n - 1) as nat) + binomial(k - 1, n)
    }
}

/// There are `binomial(m - lo, n)` increasing sequences of length `n` in `lo..m`.
proof fn lemma_increasing_from_len(lo: int, m: int, n: nat)
    ensures
        increasing_from(lo, m, n).len() == binomial(m - lo, n),
    decreases n, (if lo < m { m - lo } else { 0 }),
{
    if n > 0 && lo < m {
        lemma_increasing_from_len(lo + 1, m, (n - 1) as nat);
        lemma_increasing_from_len(lo + 1, m, n);
    }
}

/// No selection of more items than there are.
proof fn lemma_binomial_zero(k: int, n: nat)
    requires
        0 <= k < n,
    ensures
        binomial(k, n) == 0,
    decreases k,
{
    if k > 0 {
        lemma_binomial_zero(k - 1, (n - 1) as nat);
        lemma_binomial_zero(k - 1, n);
    }
}

/// An ordered selection of more items than there are is empty.
proof fn lemma_arrangements_zero(j: int, n: int)
    requires
        0 <= j < n,
    ensures
        arrangements(j, n) == 0,
    decreases n,
{
    if j < n - 1 {
        lemma_arrangements_zero(j, n - 1);
    }
    assert(arrangements(j, n) == arrangements(j, n - 1) * (j - (n - 1)));
    assert(arrangements(j, n - 1) * (j - (n - 1)) == 0) by (nonlinear_arith)
        requires
            j == n - 1 || arrangements(j, n - 1) == 0,
    ;
}

/// Pascal's rule for ordered selections: `A(k, n) = A(k - 1, n) + n * A(k - 1, n - 1)`.
proof fn lemma_arrangements_step(k: int, n: int)
    requires
        n >= 1,
    ensures
        arrangements(k, n) == arrangements(k - 1, n) + n * arrangements(k - 1, n - 1),
    decreases n,
{
    if n == 1 {
        assert(arrangements(k, 1) == arrangements(k, 0) * (k - 0));
        assert(arrangements(k - 1, 1) == arrangements(k - 1, 0) * (k - 1 - 0));
    } else {
        lemma_arrangements_step(k, n - 1);
        let a = arrangements(k - 1, n - 2);
        let b = arrangements(k - 1, n - 1);
        let c = arrangements(k, n - 1);
        assert(b == a * (k - 1 - (n - 2)));
        assert(arrangements(k - 1, n) == b * (k - 1 - (n - 1)));
        assert(arrangements(k, n) == c * (k - (n - 1)));
        assert(c * (k - (n - 1)) == b * (k - 1 - (n - 1)) + n * b) by (nonlinear_arith)
            requires
                b == a * (k - 1 - (n - 2)),
                c == b + (n - 1) * a,
        ;
    }
}

/// An ordered selection is a selection times the orders of its items:
/// `A(k, n) = C(k, n) * n!`.
proof fn lemma_arrangements_binomial(k: int, n: nat)
    requires
        n <= k,
    ensures
        arrangements(k, n as int) == binomial(k, n) * arrangements(n as int, n as int),
    decreases k,
{
    if n > 0 {
        lemma_arrangements_step(k, n as int);
        lemma_arrangements_step(n as int, n as int);
        lemma_arrangements_zero(n - 1, n as int);
        let x = arrangements(n as int, n as int);
        let y = arrangements(n - 1, n - 1);
        assert(x == n * y);
        if n <= k - 1 {
            lemma_arrangements_binomial(k - 1, n);
        } else {
            lemma_arrangements_zero(k - 1, n as int);
            lemma_binomial_zero(k - 1, n);
        }
        assert(arrangements(k - 1, n as int) == binomial(k - 1, n) * x);
        lemma_arrangements_binomial(k - 1, (n - 1) as nat);
        let b1 = binomial(k - 1, (n - 1) as nat);
        assert(arrangements(k - 1, n - 1) == b1 * y);
        assert(n * (b1 * y) == b1 * x) by (nonlinear_arith)
            requires
                x == n * y,
        ;
        assert(binomial(k - 1, n) * x + b1 * x == binomial(k, n) * x) by (nonlinear_arith)
            requires
                binomial(k, n) == b1 + binomial(k - 1, n),
        ;
    }
}

/// `C(k, n)`, computed as `A(k, n) / A(n, n)`, follows Pascal's rule.
proof fn lemma_combinations_binomial(k: int, n: nat)
    requires
        0 <= k,
    ensures
        combinations(k, n as int) == binomial(k, n),
{
    if n <= k {
        lemma_arrangements_binomial(k, n);
        lemma_arrangements_pos(n as int, n as int);
        lemma_increasing_from_len(0, k, n);
        lemma_binomial_nonneg(k, n);
        vstd::arithmetic::div_mod::lemma_div_by_multiple(binomial(k, n), arrangements(n as int, n as int));
    } else {
        lemma_binomial_zero(k, n);
    }
}

/// Selections are never negative in number.
proof fn lemma_binomial_nonneg(k: int, n: nat)
    ensures
        binomial(k, n) >= 0,
    decreases n, (if k > 0 { k } else { 0 }),
{
    if n > 0 && k > 0 {
        lemma_binomial_nonneg(k - 1, (n - 1) as nat);
        lemma_binomial_nonneg(k - 1, n);
    }
}

/// `C(k, n)`, zero for a negative `n`.
pub open spec fn pick(k: int, n: int) -> int {
    if n < 0 {
        0
    } else {
        binomial(k, n as nat)
    }
}

/// `sum over i < j of C(a, i) * C(b, n - i)`.
pub open spec fn convolution(a: int, b: int, n: int, j: int) -> int
    decreases j,
{
    if j <= 0 {
        0
    } else {
        convolution(a, b, n, j - 1) + pick(a, j - 1) * pick(b, n - (j - 1))
    }
}

/// Pascal's rule on `pick`.
proof fn lemma_pick_pascal(k: int, n: int)
    requires
        k > 0,
    ensures
        pick(k, n) == pick(k - 1, n - 1) + pick(k - 1, n),
{
}

/// Taking one item out of the first group splits the sum in two.
proof fn lemma_convolution_split(a: int, b: int, n: int, j: int)
    requires
        a > 0,
    ensures
        convolution(a, b, n, j) == convolution(a - 1, b, n, j) + convolution(a - 1, b, n - 1, j - 1),
    decreases j,
{
    if j > 0 {
        lemma_convolution_split(a, b, n, j - 1);
        lemma_pick_pascal(a, j - 1);
        let x = pick(a - 1, j - 2);
        let y = pick(a - 1, j - 1);
        let z = pick(b, n - (j - 1));
        assert((x + y) * z == x * z + y * z) by (nonlinear_arith);
        assert(n - 1 - (j - 2) == n - (j - 1));
        if j - 1 <= 0 {
            assert(x == 0);
            assert(convolution(a - 1, b, n - 1, j - 1) == 0);
            assert(convolution(a - 1, b, n - 1, j - 2) == 0);
        }
    }
}

/// No item of an empty first group: the sum is `C(b, n)`.
proof fn lemma_convolution_empty(b: int, n: int, j: int)
    requires
        j >= 1,
    ensures
        convolution(0, b, n, j) == pick(b, n),
    decreases j,
{
    if j > 1 {
        lemma_convolution_empty(b, n, j - 1);
        assert(pick(0, j - 1) == 0);
    } else {
        assert(pick(0, 0) == 1);
        assert(convolution(0, b, n, 0) == 0);
        assert(1 * pick(b, n) == pick(b, n));
    }
}

/// Terms past `n` add nothing.
pub proof fn lemma_convolution_tail(a: int, b: int, n: int, j: int)
    requires
        n >= -1,
        j >= n + 1,
    ensures
        convolution(a, b, n, j) == convolution(a, b, n, n + 1),
    decreases j,
{
    if j > n + 1 {
        lemma_convolution_tail(a, b, n, j - 1);
        assert(pick(b, n - (j - 1)) == 0);
    }
}

/// Vandermonde's identity: choosing `n` items from two groups of `a` and
/// `b` items, summed over how many come from the first, is `C(a + b, n)`.
pub proof fn lemma_vandermonde(a: int, b: int, n: int)
    requires
        0 <= a,
        0 <= b,
        n >= -1,
    ensures
        convolution(a, b, n, n + 1) == pick(a + b, n),
    decreases a,
{
    if n == -1 {
    } else if a == 0 {
        lemma_convolution_empty(b, n, n + 1);
    } else {
        lemma_convolution_split(a, b, n, n + 1);
        lemma_vandermonde(a - 1, b, n);
        lemma_vandermonde(a - 1, b, n - 1);
        lemma_pick_pascal(a + b, n);
    }
}

/// The numbers of `nums` at the indices `s`.
pub open spec fn chosen(nums: Seq<i32>, s: Seq<i64>) -> Seq<i32> {
    s.map_values(|k: i64| nums[k as int])
}

/// How many of the index sets `sets`, read as bets on the numbers `nums`,
/// hit exactly `j` numbers of `draw`.
pub open spec fn sets_hitting(sets: Seq<Seq<i64>>, nums: Seq<i32>, draw: Seq<i32>, j: int) -> int
    decreases sets.len(),
{
    if sets.len() == 0 {
        0
    } else {
        sets_hitting(sets.drop_last(), nums, draw, j) + if hit_count(chosen(nums, sets.last()), draw) == j {
            1int
        } else {
            0int
        }
    }
}

proof fn lemma_occurrences_absent(b: Seq<i32>, x: i32)
    requires
        !b.contains(x),
    ensures
        occurrences(b, x) == 0,
    decreases b.len(),
{
    if b.len() > 0 {
        assert(!b.drop_last().contains(x)) by {
            if b.drop_last().contains(x) {
                let i = choose|i: int| 0 <= i < b.drop_last().len() && b.drop_last()[i] == x;
                assert(b[i] == x);
            }
        }
        assert(b[b.len() - 1] != x);
        lemma_occurrences_absent(b.drop_last(), x);
    }
}

proof fn lemma_occurrences_at_most_one(b: Seq<i32>, x: i32)
    requires
        b.no_duplicates(),
    ensures
        occurrences(b, x) <= 1,
    decreases b.len(),
{
    if b.len() > 0 {
        let p = b.drop_last();
        assert(p.no_duplicates()) by {
            assert forall|i: int, j: int| 0 <= i < p.len() && 0 <= j < p.len() && i != j implies p[i] != p[j] by {
                assert(p[i] == b[i] && p[j] == b[j]);
            }
        }
        if b.last() == x {
            assert(!p.contains(x)) by {
                if p.contains(x) {
                    let i = choose|i: int| 0 <= i < p.len() && p[i] == x;
                    assert(b[i] == b[b.len() - 1]);
                }
            }
            lemma_occurrences_absent(p, x);
        } else {
            lemma_occurrences_at_most_one(p, x);
        }
    }
}

proof fn lemma_hit_count_at_most_len(a: Seq<i32>, b: Seq<i32>)
    requires
        b.no_duplicates(),
    ensures
        hit_count(a, b) <= a.len(),
    decreases a.len(),
{
    if a.len() > 0 {
        lemma_hit_count_at_most_len(a.drop_last(), b);
        lemma_occurrences_at_most_one(b, a.last());
    }
}

proof fn lemma_hit_count_prepend(x: i32, a: Seq<i32>, b: Seq<i32>)
    ensures
        hit_count(seq![x] + a, b) == occurrences(b, x) + hit_count(a, b),
    decreases a.len(),
{
    let xa = seq![x] + a;
    if a.len() == 0 {
        assert(xa.drop_last() =~= Seq::<i32>::empty());
        assert(xa.last() == x);
        assert(hit_count(Seq::<i32>::empty(), b) == 0);
    } else {
        assert(xa.drop_last() =~= seq![x] + a.drop_last());
        assert(xa.last() == a.last());
        lemma_hit_count_prepend(x, a.drop_last(), b);
    }
}

proof fn lemma_sets_hitting_concat(a: Seq<Seq<i64>>, c: Seq<Seq<i64>>, nums: Seq<i32>, draw: Seq<i32>, j: int)
    ensures
        sets_hitting(a + c, nums, draw, j) == sets_hitting(a, nums, draw, j) + sets_hitting(c, nums, draw, j),
    decreases c.len(),
{
    if c.len() == 0 {
        assert(a + c =~= a);
    } else {
        assert((a + c).drop_last() =~= a + c.drop_last());
        lemma_sets_hitting_concat(a, c.drop_last(), nums, draw, j);
    }
}

proof fn lemma_sets_hitting_prepend(a: Seq<Seq<i64>>, nums: Seq<i32>, draw: Seq<i32>, lo: int, j: int)
    requires
        0 <= lo < nums.len(),
        lo <= i64::MAX,
    ensures
        sets_hitting(a.map_values(|s: Seq<i64>| seq![lo as i64] + s), nums, draw, j) == sets_hitting(
            a,
            nums,
            draw,
            j - occurrences(draw, nums[lo]),
        ),
    decreases a.len(),
{
    let f = |s: Seq<i64>| seq![lo as i64] + s;
    let am = a.map_values(f);
    if a.len() > 0 {
        assert(am.drop_last() =~= a.drop_last().map_values(f));
        lemma_sets_hitting_prepend(a.drop_last(), nums, draw, lo, j);
        let t = a.last();
        assert(am.last() == seq![lo as i64] + t);
        assert(chosen(nums, seq![lo as i64] + t) =~= seq![nums[lo]] + chosen(nums, t));
        lemma_hit_count_prepend(nums[lo], chosen(nums, t), draw);
    }
}

proof fn lemma_increasing_hits(nums: Seq<i32>, draw: Seq<i32>, lo: int, m: int, n: nat, j: int)
    requires
        draw.no_duplicates(),
        0 <= lo <= m <= nums.len(),
        m <= i64::MAX,
    ensures
        sets_hitting(increasing_from(lo, m, n), nums, draw, j) == pick(
            hit_count(nums.subrange(lo, m), draw) as int,
            j,
        ) * pick((m - lo) - hit_count(nums.subrange(lo, m), draw), n - j),
    decreases n, m - lo,
{
    let h = hit_count(nums.subrange(lo, m), draw) as int;
    if n == 0 {
        let all = increasing_from(lo, m, n);
        assert(all.drop_last() =~= Seq::<Seq<i64>>::empty());
        assert(chosen(nums, all.last()) =~= Seq::<i32>::empty());
        assert(hit_count(Seq::<i32>::empty(), draw) == 0);
        assert(all.len() == 1);
        assert(sets_hitting(all.drop_last(), nums, draw, j) == 0);
        assert(hit_count(chosen(nums, all.last()), draw) == 0);
        assert(sets_hitting(all, nums, draw, j) == if j == 0 { 1int } else { 0int });
        lemma_hit_count_at_most_len(nums.subrange(lo, m), draw);
        if j == 0 {
            assert(pick(h, 0) == 1);
            assert(pick((m - lo) - h, 0) == 1);
        } else if j < 0 {
            assert(pick(h, j) == 0);
        } else {
            assert(pick((m - lo) - h, n - j) == 0);
        }
    } else if lo >= m {
        assert(nums.subrange(lo, m) =~= Seq::<i32>::empty());
        assert(h == 0);
        if j > 0 {
            assert(pick(h, j) == 0);
        } else {
            assert(pick((m - lo) - h, n - j) == 0);
        }
    } else {
        let c = increasing_from(lo + 1, m, (n - 1) as nat);
        let r = increasing_from(lo + 1, m, n);
        let f = |s: Seq<i64>| seq![lo as i64] + s;
        assert(increasing_from(lo, m, n) == c.map_values(f) + r);
        lemma_sets_hitting_concat(c.map_values(f), r, nums, draw, j);
        let o = occurrences(draw, nums[lo]) as int;
        lemma_sets_hitting_prepend(c, nums, draw, lo, j);
        lemma_increasing_hits(nums, draw, lo + 1, m, (n - 1) as nat, j - o);
        lemma_increasing_hits(nums, draw, lo + 1, m, n, j);
        let h1 = hit_count(nums.subrange(lo + 1, m), draw) as int;
        assert(nums.subrange(lo, m) =~= seq![nums[lo]] + nums.subrange(lo + 1, m));
        lemma_hit_count_prepend(nums[lo], nums.subrange(lo + 1, m), draw);
        assert(h == o + h1);
        lemma_occurrences_at_most_one(draw, nums[lo]);
        lemma_hit_count_at_most_len(nums.subrange(lo + 1, m), draw);
        let l1 = m - lo - 1;
        if o == 1 {
            lemma_pick_pascal(h, j);
            let x = pick(h1, j - 1);
            let y = pick(h1, j);
            let z = pick(l1 - h1, n - j);
            assert(x * z + y * z == (x + y) * z) by (nonlinear_arith);
            assert((n - 1) - (j - 1) == n - j);
        } else {
            assert(o == 0);
            lemma_pick_pascal(l1 - h1 + 1, n - j);
            let x = pick(h1, j);
            let y = pick(l1 - h1, n - 1 - j);
            let z = pick(l1 - h1, n - j);
            assert(x * y + x * z == x * (y + z)) by (nonlinear_arith);
        }
    }
}

/// Expanding a list of numbers into all its bets of `n` numbers (the index
/// sets that `get_detailc` lists), the bets that hit exactly `j` of the drawn
/// numbers are `C(h, j) * C(len - h, n - j)`, where `h` numbers of the list
/// were drawn: the count that a multiple ticket's draw takes for a zone.
pub proof fn lemma_expanded_hits(nums: Seq<i32>, draw: Seq<i32>, n: nat, j: int)
    requires
        draw.no_duplicates(),
        nums.len() <= i64::MAX,
    ensures
        sets_hitting(combination_sets(nums.len() as int, n), nums, draw, j) == pick(
            hit_count(nums, draw) as int,
            j,
        ) * pick(nums.len() - hit_count(nums, draw), n - j),
{
    lemma_increasing_hits(nums, draw, 0, nums.len() as int, n, j);
    assert(nums.subrange(0, nums.len() as int) =~= nums);
}

/// `combinations` is `pick` on groups of items.
pub proof fn lemma_combinations_pick(k: int, n: int)
    requires
        0 <= k,
    ensures
        combinations(k, n) == pick(k, n),
{
    if n >= 0 {
        lemma_combinations_binomial(k, n as nat);
    }
}

/// The record of `MathUtil::get_detailc(m, n)` holds exactly `C(m, n)` sets,
/// the value of `MathUtil::get_c(m, n)`: one for each choice of `n` of the
/// `m` indices.
pub proof fn lemma_detailc_count(m: int, n: nat)
    requires
        0 <= m,
    ensures
        combination_sets(m, n).len() == combinations(m, n as int),
{
    lemma_increasing_from_len(0, m, n);
    lemma_combinations_binomial(m, n);
}

/// The record of combinations that `MathUtil::get_detailc` fills.
pub struct DetailC {
    pub data: Vec<Vec<i64>>,
}

impl View for DetailC {
    type V = Seq<Seq<i64>>;

    open spec fn view(&self) -> Seq<Seq<i64>> {
        self.data@.map_values(|v: Vec<i64>| v@)
    }
}

impl DetailC {
    /// An empty record.
    pub fn new() -> (dc: DetailC)
        ensures
            dc@ == Seq::<Seq<i64>>::empty(),
    {
        DetailC { data: Vec::new() }
    }

    /// Append one set to the record.
    pub fn put(&mut self, set: Vec<i64>)
        ensures
            final(self)@ == old(self)@.push(set@),
    {
        self.data.push(set);
        assert(self@ =~= old(self)@.push(set@));
    }
}

/// The combination helpers.
pub struct MathUtil;

impl MathUtil {

    /// The record of all `n`-combinations of `0..m`, each a strictly increasing
    /// index set, in lexicographic order.
    pub fn get_detailc(m: i64, n: i64) -> (dc: DetailC)
        requires
            0 <= n <= usize::MAX,
        ensures
            dc@ == combination_sets(m as int, n as nat),
    {
        let mut dc = DetailC::new();
        let mut data = Vec::<i64>::new();
        let mut k: usize = 0;
        while k < n as usize
            invariant
                k <= n,
                data@.len() == k,
                dc@ == Seq::<Seq<i64>>::empty(),
            decreases n - k,
        {
            assert(k < n);
            data.push(0_i64);
            k = k + 1;
        }
        let ghost filled = data@;
        MathUtil::get_detailc_record(&mut dc, &mut data, m, n, 0);
        proof {
            let cs = combination_sets(m as int, n as nat);
            if n == 0 {
                assert(filled =~= Seq::<i64>::empty());
                assert(dc@ =~= seq![Seq::<i64>::empty()]);
            } else {
                assert(filled.take(0) =~= Seq::<i64>::empty());
                assert(filled.skip(n as int) =~= Seq::<i64>::empty());
                assert(framed(Seq::<i64>::empty(), cs, Seq::<i64>::empty()) =~= cs) by {
                    assert forall|i: int| 0 <= i < cs.len() implies #[trigger] framed(
                        Seq::<i64>::empty(),
                        cs,
                        Seq::<i64>::empty(),
                    )[i] == cs[i] by {
                        assert(Seq::<i64>::empty() + cs[i] + Seq::<i64>::empty() =~= cs[i]);
                    }
                }
            }
        }
        assert(dc@ =~= combination_sets(m as int, n as nat));
        dc
    }

    /// Append to `dc`, for every way to fill `data[level..level + n]` with
    /// strictly increasing entries below `m` (each above `data[level - 1]`),
    /// the filled `data`, in lexicographic order; with `n` zero, `data` itself.
    pub fn get_detailc_record(dc: &mut DetailC, data: &mut Vec<i64>, m: i64, n: i64, level: i64)
        requires
            0 <= n,
            0 <= level,
            old(data)@.len() <= i64::MAX,
            n > 0 && level > 0 ==> level - 1 < old(data)@.len() && old(data)@[level - 1] < i64::MAX,
            n > 0 ==> level + record_depth(n as int, record_start(old(data)@, level as int), m as int)
                <= old(data)@.len(),
        ensures
            final(data)@.len() == old(data)@.len(),
            forall|j: int| 0 <= j < old(data)@.len() && (j < level || j >= level + n) ==> final(data)@[j] == old(
                data,
            )@[j],
            n == 0 ==> final(dc)@ == old(dc)@.push(old(data)@),
            n > 0 ==> final(dc)@ == old(dc)@ + framed(
                old(data)@.take(level as int),
                increasing_from(record_start(old(data)@, level as int), m as int, n as nat),
                old(data)@.skip(level + n),
            ),
        decreases n,
    {
        let ghost d0 = data@;
        let data_len = data.len();
        if n == 0_i64 {
            dc.put(data.clone());
            return;
        }
        let mut start_index: i64 = 0;
        if level > 0 {
            let prev = data[(level - 1) as usize];
            start_index = prev + 1;
        }
        let ghost start = start_index as int;
        assert(start == record_start(d0, level as int));
        let ghost prefix = d0.take(level as int);
        let ghost tail = d0.skip(level + n);
        let ghost dc0 = dc@;
        let mut i: i64 = start_index;
        while i < m
            invariant
                start <= i,
                i >= m ==> i == start || i == m,
                0 <= level,
                n > 0,
                data@.len() == data_len,
                data_len == d0.len(),
                d0.len() <= i64::MAX,
                level + record_depth(n as int, start, m as int) <= d0.len(),
                forall|j: int| 0 <= j < d0.len() && (j < level || j >= level + n) ==> data@[j] == d0[j],
                dc0 + framed(prefix, increasing_from(start, m as int, n as nat), tail) == dc@ + framed(
                    prefix,
                    increasing_from(i as int, m as int, n as nat),
                    tail,
                ),
                prefix == d0.take(level as int),
                tail == d0.skip(level + n),
            decreases m - i,
        {
            assert(level < data_len);
            data.set(level as usize, i);
            let ghost before = dc@;
            let ghost at_call = data@;
            let ghost p1 = at_call.take(level + 1);
            assert(p1 =~= prefix.push(i)) by {
                assert forall|j: int| 0 <= j < level implies p1[j] == prefix[j] by {
                    assert(at_call[j] == d0[j]);
                }
            }
            assert(record_start(at_call, level + 1) == i + 1);
            assert(n - 1 > 0 ==> (level + 1) + record_depth(n - 1, i + 1, m as int) <= at_call.len());
            MathUtil::get_detailc_record(dc, data, m, n - 1, level + 1);
            proof {
                let child = increasing_from(i + 1, m as int, (n - 1) as nat);
                let rest = increasing_from(i + 1, m as int, n as nat);
                let head = child.map_values(|s: Seq<i64>| seq![i as i64] + s);
                assert(increasing_from(i as int, m as int, n as nat) == head + rest);
                if level + n <= d0.len() {
                    assert(at_call.skip(level + 1 + (n - 1)) =~= tail) by {
                        assert forall|j: int| 0 <= j < tail.len() implies at_call.skip(level + n)[j] == tail[j] by {
                            assert(at_call[level + n + j] == d0[level + n + j]);
                        }
                    }
                    assert(framed(prefix, head + rest, tail) =~= framed(prefix, head, tail) + framed(prefix, rest, tail));
                    assert(framed(prefix, head, tail) =~= framed(p1, child, tail)) by {
                        assert forall|j: int| 0 <= j < child.len() implies #[trigger] framed(prefix, head, tail)[j]
                            == framed(p1, child, tail)[j] by {
                            assert(prefix + (seq![i as i64] + child[j]) + tail =~= prefix.push(i) + child[j] + tail);
                        }
                    }
                    if n - 1 == 0 {
                        assert(child =~= seq![Seq::<i64>::empty()]);
                        assert(at_call =~= p1 + Seq::<i64>::empty() + tail) by {
                            assert(at_call.skip(level + 1) =~= tail);
                        }
                        assert(framed(p1, child, tail) =~= seq![at_call]);
                    }
                    assert(dc@ == before + framed(p1, child, tail));
                    assert(before + framed(prefix, head + rest, tail) =~= dc@ + framed(prefix, rest, tail));
                } else {
                    lemma_no_sets(i + 1, m as int, (n - 1) as nat);
                    lemma_no_sets(i + 1, m as int, n as nat);
                    assert(child =~= Seq::<Seq<i64>>::empty());
                    assert(framed(p1, child, at_call.skip(level + 1 + (n - 1))) =~= Seq::<Seq<i64>>::empty());
                    assert(dc@ =~= before);
                    assert(head + rest =~= Seq::<Seq<i64>>::empty());
                    assert(rest =~= Seq::<Seq<i64>>::empty());
                }
            }
            i = i + 1;
        }
        proof {
            assert(increasing_from(i as int, m as int, n as nat) =~= Seq::<Seq<i64>>::empty());
            assert(framed(prefix, Seq::<Seq<i64>>::empty(), tail) =~= Seq::<Seq<i64>>::empty());
            assert(dc@ + Seq::<Seq<i64>>::empty() =~= dc@);
        }
    }

    /// The number of equal pairs between `vec_a` and `vec_b`; for lists
    /// without repeats, the number of shared elements.
    pub fn get_hit_count(vec_a: &[i32], vec_b: &[i32]) -> (count: i32)
        requires
            hit_count(vec_a@, vec_b@) <= i32::MAX,
        ensures
            count == hit_count(vec_a@, vec_b@),
    {
        let mut count: i32 = 0;
        let mut i: usize = 0;
        while i < vec_a.len()
            invariant
                i <= vec_a@.len(),
                hit_count(vec_a@, vec_b@) <= i32::MAX,
                count == hit_count(vec_a@.take(i as int), vec_b@),
            decreases vec_a@.len() - i,
        {
            let a = vec_a[i];
            let ghost base = count as int;
            proof {
                assert(vec_a@.take(i + 1).drop_last() =~= vec_a@.take(i as int));
                lemma_hit_count_prefix(vec_a@, vec_b@, i + 1);
            }
            let mut j: usize = 0;
            assert(vec_b@.take(0) =~= Seq::<i32>::empty());
            while j < vec_b.len()
                invariant
                    j <= vec_b@.len(),
                    base + occurrences(vec_b@, a) <= i32::MAX,
                    count == base + occurrences(vec_b@.take(j as int), a),
                decreases vec_b@.len() - j,
            {
                proof {
                    assert(vec_b@.take(j + 1).drop_last() =~= vec_b@.take(j as int));
                    lemma_occurrences_prefix(vec_b@, a, j + 1);
                }
                if vec_b[j] == a {
                    count = count + 1;
                }
                j = j + 1;
            }
            assert(vec_b@.take(vec_b@.len() as int) =~= vec_b@);
            i = i + 1;
        }
        assert(vec_a@.take(vec_a@.len() as int) =~= vec_a@);
        count
    }

    /// `A(m, n)`, the number of ordered selections of `n` items out of `m`.
    pub fn get_a(m: i64, n: i64) -> (value: i64)
        requires
            arrangements_fit(m as int, n as int),
        ensures
            value == arrangements(m as int, n as int),
    {
        let mut value: i64 = 1;
        let mut key: i64 = 0;
        while key < n
            invariant
                0 <= key,
                n > 0 ==> key <= n,
                n <= 0 ==> key == 0,
                value == arrangements(m as int, key as int),
                arrangements_fit(m as int, n as int),
            decreases n - key,
        {
            assert(arrangements(m as int, key + 1) == arrangements(m as int, key as int) * (m - key));
            assert(i64::MIN <= arrangements(m as int, key + 1) <= i64::MAX);
            value = value * (m - key);
            key = key + 1;
        }
        value
    }

    /// `C(m, n)`, the number of `n`-subsets of `m` items; 0 where `n < 0` or `m < n`.
    pub fn get_c(m: i64, n: i64) -> (value: i64)
        requires
            0 <= n <= m ==> arrangements_fit(m as int, n as int) && arrangements_fit(n as int, n as int),
        ensures
            value == combinations(m as int, n as int),
    {
        if m < n || n < 0 {
            return 0;
        }
        let a = MathUtil::get_a(m, n);
        let b = MathUtil::get_a(n, n);
        proof {
            lemma_arrangements_nonneg(m as int, n as int);
            lemma_arrangements_pos(n as int, n as int);
        }
        a / b
    }
}

} // verus!
