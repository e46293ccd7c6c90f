use vstd::prelude::*;
use crate::text::{all_digits, is_digit, split_at_char, split_chars, split_on, views};

verus! {

/// Two ASCII digits.
pub open spec fn is_two_digits(p: Seq<char>) -> bool {
    p.len() == 2 && is_digit(p[0]) && is_digit(p[1])
}

/// Between `lo` and `hi` two-digit numbers separated by `,`, such as `01,02,13`.
pub open spec fn is_pair_list(s: Seq<char>, lo: int, hi: int) -> bool {
    let ps = split_at_char(s, ',');
    &&& lo <= ps.len() <= hi
    &&& forall|i: int| 0 <= i < ps.len() ==> #[trigger] is_two_digits(ps[i])
}

/// One or two ASCII digits.
pub open spec fn is_short_number(p: Seq<char>) -> bool {
    1 <= p.len() <= 2 && all_digits(p)
}

/// One or more numbers of one or two digits separated by `,`.
pub open spec fn is_short_list(s: Seq<char>) -> bool {
    let ps = split_at_char(s, ',');
    forall|i: int| 0 <= i < ps.len() ==> #[trigger] is_short_number(ps[i])
}

/// The eleven-digit code of a match.
pub open spec fn is_match_code(p: Seq<char>) -> bool {
    p.len() == 11 && all_digits(p)
}

/// One match of a sports bet: `code:options`.
pub open spec fn is_match_item(m: Seq<char>) -> bool {
    let ps = split_at_char(m, ':');
    ps.len() == 2 && is_match_code(ps[0]) && is_short_list(ps[1])
}

/// One match of a mixed sports bet: `code:play:options`.
pub open spec fn is_mixed_match_item(m: Seq<char>) -> bool {
    let ps = split_at_char(m, ':');
    ps.len() == 3 && is_match_code(ps[0]) && is_two_digits(ps[1]) && is_short_list(ps[2])
}

/// The pass type `m*n` of a sports bet, with one digit each.
pub open spec fn is_pass_type(p: Seq<char>) -> bool {
    p.len() == 3 && is_digit(p[0]) && p[1] == '*' && is_digit(p[2])
}

/// `matches|m*n` where the matches are separated by `;`.
pub open spec fn is_parlay_number(s: Seq<char>) -> bool {
    let ps = split_at_char(s, '|');
    let ms = split_at_char(ps[0], ';');
    &&& ps.len() == 2
    &&& forall|i: int| 0 <= i < ms.len() ==> #[trigger] is_match_item(ms[i])
    &&& is_pass_type(ps[1])
}

/// `matches|m*n` of mixed play, where each match names its play.
pub open spec fn is_mixed_parlay_number(s: Seq<char>) -> bool {
    let ps = split_at_char(s, '|');
    let ms = split_at_char(ps[0], ';');
    &&& ps.len() == 2
    &&& forall|i: int| 0 <= i < ms.len() ==> #[trigger] is_mixed_match_item(ms[i])
    &&& is_pass_type(ps[1])
}

/// A single match bet: `code:options|1*1`.
pub open spec fn is_single_number(s: Seq<char>) -> bool {
    let ps = split_at_char(s, '|');
    ps.len() == 2 && is_match_item(ps[0]) && ps[1] == seq!['1', '*', '1']
}

/// Whether `s[..]` has two digits at `i` and `i + 1`.
pub open spec fn digits_at(s: Seq<char>, i: int) -> bool {
    0 <= i && i + 1 < s.len() && is_digit(s[i]) && is_digit(s[i + 1])
}

/// Two digits and a `,` at positions `3k`, `3k + 1` and `3k + 2`.
pub open spec fn is_pair_group(p: Seq<char>, k: int) -> bool {
    digits_at(p, 3 * k) && p[3 * k + 2] == ','
}

/// A double-color-ball entry is accepted where it starts with five `dd,`
/// groups followed by `,dd`, or where it ends with two digits.
pub open spec fn is_ssq_entry(p: Seq<char>) -> bool {
    ||| (p.len() >= 18 && (forall|k: int| 0 <= k < 5 ==> #[trigger] is_pair_group(p, k))
        && p[15] == ',' && digits_at(p, 16))
    ||| (p.len() >= 2 && digits_at(p, p.len() - 2))
}

/// A direct pick-three entry: `d|d|d`.
pub open spec fn is_pls_entry(p: Seq<char>) -> bool {
    p.len() == 5 && is_digit(p[0]) && p[1] == '|' && is_digit(p[2]) && p[3] == '|' && is_digit(p[4])
}

/// A single digit.
pub open spec fn is_one_digit(p: Seq<char>) -> bool {
    p.len() == 1 && is_digit(p[0])
}

/// Between one and ten single digits separated by `,`.
pub open spec fn is_digit_list(s: Seq<char>) -> bool {
    let ps = split_at_char(s, ',');
    &&& 1 <= ps.len() <= 10
    &&& forall|i: int| 0 <= i < ps.len() ==> #[trigger] is_one_digit(ps[i])
}

/// A multiple pick-three entry: three digit lists separated by `|`.
pub open spec fn is_pls_multiple(s: Seq<char>) -> bool {
    let ps = split_at_char(s, '|');
    ps.len() == 3 && (forall|i: int| 0 <= i < 3 ==> #[trigger] is_digit_list(ps[i]))
}

/// The pieces of `s` at `sep`.
pub fn split_at(s: &[char], sep: char) -> (pieces: Vec<Vec<char>>)
    ensures
        views(pieces@) == split_at_char(s@, sep),
{
    let seps = vec![sep];
    assert(seps@ =~= seq![sep]);
    split_chars(s, seps.as_slice())
}

/// Whether `c` is an ASCII digit.
pub fn digit(c: char) -> (b: bool)
    ensures
        b == is_digit(c),
{
    '0' <= c && c <= '9'
}

/// Whether every character is an ASCII digit.
pub fn check_all_digits(s: &[char]) -> (b: bool)
    ensures
        b == all_digits(s@),
{
    let mut i: usize = 0;
    while i < s.len()
        invariant
            i <= s@.len(),
            forall|j: int| 0 <= j < i ==> #[trigger] is_digit(s@[j]),
        decreases s@.len() - i,
    {
        if !digit(s[i]) {
            return false;
        }
        i = i + 1;
    }
    true
}

/// Whether `s` is two ASCII digits.
pub fn check_two_digits(s: &[char]) -> (b: bool)
    ensures
        b == is_two_digits(s@),
{
    s.len() == 2 && digit(s[0]) && digit(s[1])
}

/// Whether `s` is a list of `lo..=hi` two-digit numbers.
pub fn check_pair_list(s: &[char], lo: usize, hi: usize) -> (b: bool)
    ensures
        b == is_pair_list(s@, lo as int, hi as int),
{
    let ps = split_at(s, ',');
    if ps.len() < lo || ps.len() > hi {
        return false;
    }
    let mut i: usize = 0;
    while i < ps.len()
        invariant
            views(ps@) == split_at_char(s@, ','),
            i <= ps@.len(),
            forall|j: int| 0 <= j < i ==> #[trigger] is_two_digits(split_at_char(s@, ',')[j]),
        decreases ps@.len() - i,
    {
        assert(ps@[i as int]@ == split_at_char(s@, ',')[i as int]);
        if !check_two_digits(ps[i].as_slice()) {
            return false;
        }
        i = i + 1;
    }
    true
}

/// Whether `s` is a list of numbers of one or two digits.
pub fn check_short_list(s: &[char]) -> (b: bool)
    ensures
        b == is_short_list(s@),
{
    let ps = split_at(s, ',');
    let mut i: usize = 0;
    while i < ps.len()
        invariant
            views(ps@) == split_at_char(s@, ','),
            i <= ps@.len(),
            forall|j: int| 0 <= j < i ==> #[trigger] is_short_number(split_at_char(s@, ',')[j]),
        decreases ps@.len() - i,
    {
        assert(ps@[i as int]@ == split_at_char(s@, ',')[i as int]);
        let p = &ps[i];
        if p.len() < 1 || p.len() > 2 || !check_all_digits(p.as_slice()) {
            assert(!is_short_number(split_at_char(s@, ',')[i as int]));
            return false;
        }
        i = i + 1;
    }
    true
}

/// Whether `s` is an eleven-digit match code.
pub fn check_match_code(s: &[char]) -> (b: bool)
    ensures
        b == is_match_code(s@),
{
    s.len() == 11 && check_all_digits(s)
}

/// Whether `m` is `code:options`.
pub fn check_match_item(m: &[char]) -> (b: bool)
    ensures
        b == is_match_item(m@),
{
    let ps = split_at(m, ':');
    if ps.len() != 2 {
        return false;
    }
    assert(ps@[0]@ == split_at_char(m@, ':')[0]);
    assert(ps@[1]@ == split_at_char(m@, ':')[1]);
    check_match_code(ps[0].as_slice()) && check_short_list(ps[1].as_slice())
}

/// Whether `m` is `code:play:options`.
pub fn check_mixed_match_item(m: &[char]) -> (b: bool)
    ensures
        b == is_mixed_match_item(m@),
{
    let ps = split_at(m, ':');
    if ps.len() != 3 {
        return false;
    }
    assert(ps@[0]@ == split_at_char(m@, ':')[0]);
    assert(ps@[1]@ == split_at_char(m@, ':')[1]);
    assert(ps@[2]@ == split_at_char(m@, ':')[2]);
    check_match_code(ps[0].as_slice()) && check_two_digits(ps[1].as_slice()) && check_short_list(
        ps[2].as_slice(),
    )
}

/// Whether `p` is `m*n` with one digit each.
pub fn check_pass_type(p: &[char]) -> (b: bool)
    ensures
        b == is_pass_type(p@),
{
    p.len() == 3 && digit(p[0]) && p[1] == '*' && digit(p[2])
}

/// Whether `s` is `matches|m*n`, plain (`mixed == false`) or mixed.
pub fn check_parlay_number(s: &[char], mixed: bool) -> (b: bool)
    ensures
        !mixed ==> b == is_parlay_number(s@),
        mixed ==> b == is_mixed_parlay_number(s@),
{
    let ps = split_at(s, '|');
    proof {
        crate::text::lemma_split_on_len(s@, seq!['|']);
    }
    assert(ps@[0]@ == split_at_char(s@, '|')[0]);
    let ms = split_at(ps[0].as_slice(), ';');
    if ps.len() != 2 {
        return false;
    }
    assert(ps@[1]@ == split_at_char(s@, '|')[1]);
    let ghost mss = split_at_char(split_at_char(s@, '|')[0], ';');
    let mut i: usize = 0;
    while i < ms.len()
        invariant
            views(ms@) == mss,
            mss == split_at_char(split_at_char(s@, '|')[0], ';'),
            i <= ms@.len(),
            !mixed ==> forall|j: int| 0 <= j < i ==> #[trigger] is_match_item(mss[j]),
            mixed ==> forall|j: int| 0 <= j < i ==> #[trigger] is_mixed_match_item(mss[j]),
        decreases ms@.len() - i,
    {
        assert(ms@[i as int]@ == mss[i as int]);
        let ok = if mixed {
            check_mixed_match_item(ms[i].as_slice())
        } else {
            check_match_item(ms[i].as_slice())
        };
        if !ok {
            assert(!mixed ==> !is_match_item(mss[i as int]));
            assert(mixed ==> !is_mixed_match_item(mss[i as int]));
            return false;
        }
        i = i + 1;
    }
    check_pass_type(ps[1].as_slice())
}

/// Whether `s` is `code:options|1*1`.
pub fn check_single_number(s: &[char]) -> (b: bool)
    ensures
        b == is_single_number(s@),
{
    let ps = split_at(s, '|');
    if ps.len() != 2 {
        return false;
    }
    assert(ps@[0]@ == split_at_char(s@, '|')[0]);
    assert(ps@[1]@ == split_at_char(s@, '|')[1]);
    let tail = &ps[1];
    let tail_ok = tail.len() == 3 && tail[0] == '1' && tail[1] == '*' && tail[2] == '1';
    assert(tail_ok == (tail@ == seq!['1', '*', '1'])) by {
        if tail@.len() == 3 && tail@ == seq!['1', '*', '1'] {
            assert(tail@[0] == '1' && tail@[1] == '*' && tail@[2] == '1');
        }
        if tail_ok {
            assert(tail@ =~= seq!['1', '*', '1']);
        }
    }
    check_match_item(ps[0].as_slice()) && tail_ok
}

fn check_ssq_groups(p: &[char]) -> (b: bool)
    requires
        p@.len() >= 18,
    ensures
        b == (forall|k: int| 0 <= k < 5 ==> #[trigger] is_pair_group(p@, k)),
{
    let mut k: usize = 0;
    while k < 5
        invariant
            p@.len() >= 18,
            k <= 5,
            forall|j: int| 0 <= j < k ==> #[trigger] is_pair_group(p@, j),
        decreases 5 - k,
    {
        if !(digit(p[3 * k]) && digit(p[3 * k + 1]) && p[3 * k + 2] == ',') {
            assert(!is_pair_group(p@, k as int));
            return false;
        }
        assert(is_pair_group(p@, k as int));
        k = k + 1;
    }
    true
}

/// Whether `p` is a double-color-ball entry.
pub fn check_ssq_entry(p: &[char]) -> (b: bool)
    ensures
        b == is_ssq_entry(p@),
{
    let n = p.len();
    let first = n >= 18 && check_ssq_groups(p) && p[15] == ',' && digit(p[16]) && digit(p[17]);
    let second = n >= 2 && digit(p[n - 2]) && digit(p[n - 1]);
    first || second
}

/// Whether `p` is `d|d|d`.
pub fn check_pls_entry(p: &[char]) -> (b: bool)
    ensures
        b == is_pls_entry(p@),
{
    p.len() == 5 && digit(p[0]) && p[1] == '|' && digit(p[2]) && p[3] == '|' && digit(p[4])
}

/// Whether `s` is three lists of one to ten single digits separated by `|`.
pub fn check_pls_multiple(s: &[char]) -> (b: bool)
    ensures
        b == is_pls_multiple(s@),
{
    let ps = split_at(s, '|');
    if ps.len() != 3 {
        return false;
    }
    let mut i: usize = 0;
    while i < 3
        invariant
            views(ps@) == split_at_char(s@, '|'),
            ps@.len() == 3,
            i <= 3,
            forall|j: int| 0 <= j < i ==> #[trigger] is_digit_list(split_at_char(s@, '|')[j]),
        decreases 3 - i,
    {
        assert(ps@[i as int]@ == split_at_char(s@, '|')[i as int]);
        let qs = split_at(ps[i].as_slice(), ',');
        if qs.len() < 1 || qs.len() > 10 {
            assert(!is_digit_list(split_at_char(s@, '|')[i as int]));
            return false;
        }
        let mut k: usize = 0;
        while k < qs.len()
            invariant
                views(qs@) == split_at_char(split_at_char(s@, '|')[i as int], ','),
                i < 3,
                split_at_char(s@, '|').len() == 3,
                k <= qs@.len(),
                forall|j: int| 0 <= j < k ==> #[trigger] is_one_digit(split_at_char(split_at_char(s@, '|')[i as int], ',')[j]),
            decreases qs@.len() - k,
        {
            assert(qs@[k as int]@ == split_at_char(split_at_char(s@, '|')[i as int], ',')[k as int]);
            let q = &qs[k];
            if !(q.len() == 1 && digit(q[0])) {
                assert(!is_one_digit(split_at_char(split_at_char(s@, '|')[i as int], ',')[k as int]));
                assert(!is_digit_list(split_at_char(s@, '|')[i as int]));
                return false;
            }
            k = k + 1;
        }
        i = i + 1;
    }
    true
}

} // verus!
