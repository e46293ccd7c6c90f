use vstd::prelude::*;
use crate::cons::{err_num, ErrCode};
use crate::game::base::{BetType, Game, PlayType, Ticket};
use crate::game::format::{check_pair_list, is_pair_list, is_two_digits, split_at};
use crate::text::{chars_of, contains_char, lemma_split_char_origin, lemma_split_on_len, lemma_split_pieces_free, split_at_char, views};
use crate::util::math::{combinations, hit_count, lemma_hit_count_bound, lemma_small_arrangements_fit, lemma_small_combinations, MathUtil};
use crate::util::number::{is_number_list, lemma_short_number_list, margin_check, number_list_values, sort_check, NumberUtil};

verus! {

/// The error for a malformed number.
pub open spec fn number_is_wrong() -> i32 {
    err_num(ErrCode::NumberIsWrong)
}

/// The numbers of a list of two-digit numbers.
pub open spec fn ints(s: Seq<char>) -> Seq<i32> {
    number_list_values(s)
}

/// `s` holds no `|`.
pub open spec fn no_bar(s: Seq<char>) -> bool {
    forall|j: int| 0 <= j < s.len() ==> s[j] != '|'
}

/// The zone checks of a lottery number `red|blue`: each zone strictly
/// increasing, red within 1..=35 and blue within 1..=12; on success the
/// sizes of the two zones.
pub open spec fn dlt_zone_check(num: Seq<char>) -> Result<(i32, i32), i32> {
    let ps = split_at_char(num, '|');
    let red = number_list_values(ps[0]);
    let blue = number_list_values(ps[1]);
    if sort_check(red) is Ok && margin_check(red, 1, 35) is Ok && sort_check(blue) is Ok
        && margin_check(blue, 1, 12) is Ok {
        Ok((red.len() as i32, blue.len() as i32))
    } else {
        Err(number_is_wrong())
    }
}

/// `num` has two zones that are number lists.
pub open spec fn dlt_zones_readable(num: Seq<char>) -> bool {
    let ps = split_at_char(num, '|');
    ps.len() >= 2 && is_number_list(ps[0]) && is_number_list(ps[1])
}

/// A single bet: five red and two blue two-digit numbers, `r,r,r,r,r|b,b`.
pub open spec fn is_dlt_single(p: Seq<char>) -> bool {
    let ps = split_at_char(p, '|');
    ps.len() == 2 && is_pair_list(ps[0], 5, 5) && is_pair_list(ps[1], 2, 2)
}

/// A multiple bet: 5 to 35 red and 2 to 12 blue two-digit numbers.
pub open spec fn is_dlt_multiple(p: Seq<char>) -> bool {
    let ps = split_at_char(p, '|');
    ps.len() == 2 && is_pair_list(ps[0], 5, 35) && is_pair_list(ps[1], 2, 12)
}

/// The result of validating single bets `number` (up to five, separated by `;`).
pub open spec fn validate_dlt_single(number: Seq<char>) -> Result<i32, i32> {
    let v = split_at_char(number, ';');
    if v.len() > 5 {
        Err(err_num(ErrCode::CountBtFive))
    } else if forall|i: int| 0 <= i < v.len() ==> #[trigger] is_dlt_single(v[i]) && dlt_zone_check(v[i]) is Ok {
        Ok(v.len() as i32)
    } else {
        Err(number_is_wrong())
    }
}

/// The result of validating a multiple bet: `C(red, 5) * C(blue, 2)` bets.
pub open spec fn validate_dlt_multiple(number: Seq<char>) -> Result<i32, i32> {
    if !is_dlt_multiple(number) {
        Err(number_is_wrong())
    } else {
        match dlt_zone_check(number) {
            Err(e) => Err(e),
            Ok((r, b)) => Ok((combinations(r as int, 5) * combinations(b as int, 2)) as i32),
        }
    }
}

/// Sorted and within bounds.
pub open spec fn zone_ok(s: Seq<i32>, max: i32) -> bool {
    margin_check(s, 1, max) is Ok
}

/// The number of bets of a banker bet (`$` separates bankers from the rest),
/// or `None` where it is malformed.
pub open spec fn dlt_banker_count(number: Seq<char>) -> Option<int> {
    let parts = split_at_char(number, '$');
    if parts.len() == 2 {
        let f = parts[0];
        let s = parts[1];
        if f.contains('|') {
            let fp = split_at_char(f, '|');
            if fp.len() == 2 && is_pair_list(fp[0], 5, 35) && is_pair_list(fp[1], 1, 1) && is_pair_list(s, 2, 11) {
                let red = ints(fp[0]);
                let bd = ints(fp[1]);
                let bt = ints(s);
                if sort_check(red) is Ok && sort_check(bt) is Ok && zone_ok(red, 35) && zone_ok(bd, 12)
                    && zone_ok(bt, 12) && hit_count(bd, bt) == 0 {
                    Some(combinations(red.len() as int, 5) * combinations(bt.len() as int, 1))
                } else {
                    None
                }
            } else {
                None
            }
        } else {
            let sp = split_at_char(s, '|');
            if is_pair_list(f, 1, 4) && sp.len() == 2 && is_pair_list(sp[0], 1, 35) && is_pair_list(sp[1], 2, 12) {
                let rd = ints(f);
                let rt = ints(sp[0]);
                let bl = ints(sp[1]);
                if sort_check(rd) is Ok && sort_check(rt) is Ok && sort_check(bl) is Ok && zone_ok(rd, 35)
                    && zone_ok(rt, 35) && zone_ok(bl, 12) && hit_count(rd, rt) == 0 {
                    Some(combinations(rt.len() as int, 5 - rd.len()) * combinations(bl.len() as int, 2))
                } else {
                    None
                }
            } else {
                None
            }
        }
    } else if parts.len() == 3 {
        let mp = split_at_char(parts[1], '|');
        if is_pair_list(parts[0], 1, 4) && mp.len() == 2 && is_pair_list(mp[0], 1, 35) && is_pair_list(mp[1], 1, 1)
            && is_pair_list(parts[2], 2, 12) {
            let rd = ints(parts[0]);
            let rt = ints(mp[0]);
            let bd = ints(mp[1]);
            let bt = ints(parts[2]);
            if sort_check(rd) is Ok && zone_ok(rd, 35) && sort_check(rt) is Ok && zone_ok(rt, 35) && sort_check(bd) is Ok
                && zone_ok(bd, 12) && sort_check(bt) is Ok && zone_ok(bt, 12) && hit_count(rd, rt) == 0
                && hit_count(bd, bt) == 0 {
                Some(combinations(rt.len() as int, 5 - rd.len()) * combinations(bt.len() as int, 2 - bd.len()))
            } else {
                None
            }
        } else {
            None
        }
    } else {
        None
    }
}

/// The result of validating a banker bet: at least two bets are required.
pub open spec fn validate_dlt_banker(number: Seq<char>) -> Result<i32, i32> {
    match dlt_banker_count(number) {
        None => Err(number_is_wrong()),
        Some(c) => if c < 2 {
            Err(number_is_wrong())
        } else {
            Ok(c as i32)
        },
    }
}

/// A list of two-digit numbers without `|` is a readable number list with
/// values in `0..=99`, one per piece.
proof fn lemma_pair_list_ints(s: Seq<char>, lo: int, hi: int)
    requires
        is_pair_list(s, lo, hi),
        no_bar(s),
    ensures
        is_number_list(s),
        ints(s).len() == split_at_char(s, ',').len(),
        lo <= ints(s).len() <= hi,
        forall|i: int| 0 <= i < ints(s).len() ==> 0 <= #[trigger] ints(s)[i] <= 99,
{
    let ps = split_at_char(s, ',');
    assert forall|i: int| 0 <= i < ps.len() implies 1 <= (#[trigger] ps[i]).len() <= 2 && crate::text::all_digits(ps[i]) by {
        assert(is_two_digits(ps[i]));
        assert forall|j: int| 0 <= j < ps[i].len() implies #[trigger] crate::text::is_digit(ps[i][j]) by {
            assert(j == 0 || j == 1);
        }
    }
    lemma_short_number_list(s);
}

/// The pieces of a split at `|` hold no `|`.
pub(crate) proof fn lemma_bar_pieces(s: Seq<char>)
    ensures
        forall|i: int| 0 <= i < split_at_char(s, '|').len() ==> no_bar(#[trigger] split_at_char(s, '|')[i]),
{
    lemma_split_pieces_free(s, seq!['|']);
    assert forall|i: int| 0 <= i < split_at_char(s, '|').len() implies no_bar(#[trigger] split_at_char(s, '|')[i]) by {
        let p = split_at_char(s, '|')[i];
        assert forall|j: int| 0 <= j < p.len() implies p[j] != '|' by {
            if p[j] == '|' {
                assert(seq!['|'][0] == p[j]);
                assert(seq!['|'].contains(p[j]));
            }
        }
    }
}

/// The pieces of a split at a separator other than `|` hold no `|` where
/// the text holds none.
proof fn lemma_no_bar_pieces(s: Seq<char>, sep: char)
    requires
        no_bar(s),
    ensures
        split_at_char(s, sep).len() >= 1,
        forall|i: int| 0 <= i < split_at_char(s, sep).len() ==> no_bar(#[trigger] split_at_char(s, sep)[i]),
    decreases s.len(),
{
    lemma_split_on_len(s, seq![sep]);
    if s.len() > 0 {
        assert(no_bar(s.drop_last()));
        lemma_no_bar_pieces(s.drop_last(), sep);
        let p = split_at_char(s.drop_last(), sep);
        let q = split_at_char(s, sep);
        assert forall|i: int| 0 <= i < q.len() implies no_bar(#[trigger] q[i]) by {
            if i < p.len() && i != p.len() - 1 {
                assert(q[i] == p[i]);
            } else if i == p.len() - 1 {
                if !seq![sep].contains(s.last()) {
                    assert(q[i] == p[i].push(s.last()));
                    assert(no_bar(p[i]));
                    assert forall|j: int| 0 <= j < q[i].len() implies q[i][j] != '|' by {
                        if j < p[i].len() {
                            assert(q[i][j] == p[i][j]);
                        } else {
                            assert(q[i][j] == s[s.len() - 1]);
                        }
                    }
                } else {
                    assert(q[i] == p[i]);
                }
            } else {
                assert(q[i] =~= Seq::<char>::empty());
            }
        }
    }
}

/// The numbers of a two-digit list of `lo..=hi` items, or `None` where `p` is
/// not such a list.
fn pair_ints(p: &[char], lo: usize, hi: usize) -> (r: Option<Vec<i32>>)
    requires
        no_bar(p@),
    ensures
        r is Some <==> is_pair_list(p@, lo as int, hi as int),
        r matches Some(v) ==> v@ == ints(p@) && lo <= v@.len() <= hi && (forall|i: int|
            0 <= i < v@.len() ==> 0 <= #[trigger] v@[i] <= 99),
{
    if !check_pair_list(p, lo, hi) {
        return None;
    }
    proof {
        lemma_pair_list_ints(p@, lo as int, hi as int);
    }
    Some(NumberUtil::ints_of_chars(p))
}

/// The checks of each zone of a lottery number.
pub struct DltHelper;

impl DltHelper {
    /// Both zones of `num` strictly increasing, red within 1..=35 and blue
    /// within 1..=12; on success the sizes of the red and the blue zone.
    pub fn check_format(num: &str) -> (r: Result<(i32, i32), i32>)
        requires
            dlt_zones_readable(num@),
        ensures
            r == dlt_zone_check(num@),
    {
        let cs = chars_of(num);
        DltHelper::check_format_chars(cs.as_slice())
    }

    /// `check_format` on the characters of a number.
    pub fn check_format_chars(num: &[char]) -> (r: Result<(i32, i32), i32>)
        requires
            dlt_zones_readable(num@),
        ensures
            r == dlt_zone_check(num@),
    {
        let ps = split_at(num, '|');
        assert(ps@[0]@ == split_at_char(num@, '|')[0]);
        assert(ps@[1]@ == split_at_char(num@, '|')[1]);
        let red_vec = NumberUtil::ints_of_chars(ps[0].as_slice());
        if NumberUtil::array_sort_from_min_to_max(&red_vec).is_err() {
            return Err(ErrCode::NumberIsWrong.code());
        }
        if NumberUtil::check_margin(&red_vec, 1, 35).is_err() {
            return Err(ErrCode::NumberIsWrong.code());
        }
        let blue_vec = NumberUtil::ints_of_chars(ps[1].as_slice());
        if NumberUtil::array_sort_from_min_to_max(&blue_vec).is_err() {
            return Err(ErrCode::NumberIsWrong.code());
        }
        if NumberUtil::check_margin(&blue_vec, 1, 12).is_err() {
            return Err(ErrCode::NumberIsWrong.code());
        }
        Ok((red_vec.len() as i32, blue_vec.len() as i32))
    }
}

/// The zones of a single or multiple bet are readable.
proof fn lemma_dlt_readable(p: Seq<char>, lo1: int, hi1: int, lo2: int, hi2: int)
    requires
        split_at_char(p, '|').len() == 2,
        is_pair_list(split_at_char(p, '|')[0], lo1, hi1),
        is_pair_list(split_at_char(p, '|')[1], lo2, hi2),
    ensures
        dlt_zones_readable(p),
        lo1 <= ints(split_at_char(p, '|')[0]).len() <= hi1,
        lo2 <= ints(split_at_char(p, '|')[1]).len() <= hi2,
{
    lemma_bar_pieces(p);
    assert(no_bar(split_at_char(p, '|')[0]));
    assert(no_bar(split_at_char(p, '|')[1]));
    lemma_pair_list_ints(split_at_char(p, '|')[0], lo1, hi1);
    lemma_pair_list_ints(split_at_char(p, '|')[1], lo2, hi2);
}

/// Single bets of the big lottery.
pub struct ValidateDlt1010;

impl ValidateDlt1010 {
    /// At most five bets `r,r,r,r,r|b,b` separated by `;`; the result is the
    /// number of bets.
    pub fn validate(&self, ticket: &Ticket, game: &Game, play_type: &PlayType, bet_type: &BetType) -> (r: Result<i32, i32>)
        ensures
            r == validate_dlt_single(ticket.number()),
    {
        let cs = chars_of(ticket.get_number());
        let v = split_at(cs.as_slice(), ';');
        let ghost vs = split_at_char(ticket.number(), ';');
        if v.len() > 5 {
            return Err(ErrCode::CountBtFive.code());
        }
        let count = v.len() as i32;
        let mut i: usize = 0;
        while i < v.len()
            invariant
                views(v@) == vs,
                vs == split_at_char(ticket.number(), ';'),
                vs.len() <= 5,
                i <= v@.len(),
                forall|j: int| 0 <= j < i ==> #[trigger] is_dlt_single(vs[j]) && dlt_zone_check(vs[j]) is Ok,
            decreases v@.len() - i,
        {
            let num = v[i].as_slice();
            assert(num@ == vs[i as int]);
            let ps = split_at(num, '|');
            proof {
                lemma_bar_pieces(num@);
            }
            if ps.len() != 2 {
                assert(!is_dlt_single(vs[i as int]));
                return Err(ErrCode::NumberIsWrong.code());
            }
            assert(ps@[0]@ == split_at_char(num@, '|')[0]);
            assert(ps@[1]@ == split_at_char(num@, '|')[1]);
            if !(check_pair_list(ps[0].as_slice(), 5, 5) && check_pair_list(ps[1].as_slice(), 2, 2)) {
                assert(!is_dlt_single(vs[i as int]));
                return Err(ErrCode::NumberIsWrong.code());
            }
            assert(is_dlt_single(vs[i as int]));
            proof {
                lemma_dlt_readable(num@, 5, 5, 2, 2);
            }
            if DltHelper::check_format_chars(num).is_err() {
                assert(!(is_dlt_single(vs[i as int]) && dlt_zone_check(vs[i as int]) is Ok));
                return Err(ErrCode::NumberIsWrong.code());
            }
            assert(is_dlt_single(vs[i as int]) && dlt_zone_check(vs[i as int]) is Ok);
            i = i + 1;
        }
        Ok(count)
    }
}

/// Multiple bets of the big lottery.
pub struct ValidateDlt1020;

impl ValidateDlt1020 {
    /// 5 to 35 red and 2 to 12 blue numbers; the result is
    /// `C(red, 5) * C(blue, 2)` bets.
    pub fn validate(&self, ticket: &Ticket, game: &Game, play_type: &PlayType, bet_type: &BetType) -> (r: Result<i32, i32>)
        ensures
            r == validate_dlt_multiple(ticket.number()),
    {
        let cs = chars_of(ticket.get_number());
        let num = cs.as_slice();
        let ps = split_at(num, '|');
        let shape_ok = ps.len() == 2 && {
            assert(ps@[0]@ == split_at_char(num@, '|')[0]);
            assert(ps@[1]@ == split_at_char(num@, '|')[1]);
            check_pair_list(ps[0].as_slice(), 5, 35) && check_pair_list(ps[1].as_slice(), 2, 12)
        };
        if !shape_ok {
            return Err(ErrCode::NumberIsWrong.code());
        }
        proof {
            lemma_dlt_readable(num@, 5, 35, 2, 12);
        }
        match DltHelper::check_format_chars(num) {
            Err(e) => Err(e),
            Ok((red_len, blue_len)) => {
                proof {
                    if red_len >= 5 {
                        lemma_small_arrangements_fit(red_len as int, 5);
                    }
                    if blue_len >= 2 {
                        lemma_small_arrangements_fit(blue_len as int, 2);
                    }
                    lemma_small_combinations(red_len as int, 5);
                    lemma_small_combinations(blue_len as int, 2);
                }
                let a = MathUtil::get_c(red_len as i64, 5);
                let b = MathUtil::get_c(blue_len as i64, 2);
                assert(a * b <= 52521875 * 52521875) by (nonlinear_arith)
                    requires
                        0 <= a <= 52521875,
                        0 <= b <= 52521875,
                ;
                Ok((a * b) as i32)
            },
        }
    }
}

/// Banker bets of the big lottery.
pub struct ValidateDlt1030;

/// The number of bets of a banker bet from the sizes of its parts: `C(tuo,
/// 5 - dan) * C(blue_tuo, 2 - blue_dan)` with at most 35 and 12 numbers.
fn banker_bets(rd: usize, rt: usize, bd: usize, bt: usize) -> (c: i64)
    requires
        rd <= 5,
        rt <= 35,
        bd <= 2,
        bt <= 12,
    ensures
        c == combinations(rt as int, 5 - rd) * combinations(bt as int, 2 - bd),
{
    proof {
        if 5 - rd <= rt {
            lemma_small_arrangements_fit(rt as int, 5 - rd);
        }
        if 2 - bd <= bt {
            lemma_small_arrangements_fit(bt as int, 2 - bd);
        }
        lemma_small_combinations(rt as int, 5 - rd);
        lemma_small_combinations(bt as int, 2 - bd);
    }
    let a = MathUtil::get_c(rt as i64, 5 - rd as i64);
    let b = MathUtil::get_c(bt as i64, 2 - bd as i64);
    assert(a * b <= 52521875 * 52521875) by (nonlinear_arith)
        requires
            0 <= a <= 52521875,
            0 <= b <= 52521875,
    ;
    a * b
}

/// Whether two short lists share no number.
fn disjoint(a: &Vec<i32>, b: &Vec<i32>) -> (r: bool)
    requires
        a@.len() <= 35,
        b@.len() <= 35,
    ensures
        r == (hit_count(a@, b@) == 0),
{
    proof {
        lemma_hit_count_bound(a@, b@);
        assert(a@.len() * b@.len() <= 35 * 35) by (nonlinear_arith)
            requires
                a@.len() <= 35,
                b@.len() <= 35,
        ;
    }
    MathUtil::get_hit_count(a.as_slice(), b.as_slice()) == 0
}

fn sorted_in(v: &Vec<i32>, max: i32) -> (r: bool)
    ensures
        r == (sort_check(v@) is Ok && margin_check(v@, 1, max) is Ok),
{
    NumberUtil::array_sort_from_min_to_max(v).is_ok() && NumberUtil::check_margin(v, 1, max).is_ok()
}

fn within(v: &Vec<i32>, max: i32) -> (r: bool)
    ensures
        r == (margin_check(v@, 1, max) is Ok),
{
    NumberUtil::check_margin(v, 1, max).is_ok()
}

/// The number of bets of a banker bet, or `None` where it is malformed.
fn banker_count(number: &[char]) -> (r: Option<i64>)
    ensures
        r matches Some(c) ==> dlt_banker_count(number@) == Some(c as int),
        r is None ==> dlt_banker_count(number@) is None,
{
    let parts = split_at(number, '$');
    let ghost ps = split_at_char(number@, '$');
    proof {
        lemma_split_on_len(number@, seq!['$']);
    }
    if parts.len() == 2 {
        assert(parts@[0]@ == ps[0]);
        assert(parts@[1]@ == ps[1]);
        let f = parts[0].as_slice();
        let s = parts[1].as_slice();
        if contains_char(f, '|') {
            let fp = split_at(f, '|');
            if fp.len() != 2 {
                return None;
            }
            assert(fp@[0]@ == split_at_char(f@, '|')[0]);
            assert(fp@[1]@ == split_at_char(f@, '|')[1]);
            proof {
                lemma_bar_pieces(f@);
            }
            if !check_pair_list(s, 2, 11) {
                return None;
            }
            let red = match pair_ints(fp[0].as_slice(), 5, 35) {
                Some(v) => v,
                None => return None,
            };
            let bd = match pair_ints(fp[1].as_slice(), 1, 1) {
                Some(v) => v,
                None => return None,
            };
            if !(NumberUtil::array_sort_from_min_to_max(&red).is_ok()) {
                return None;
            }
            proof {
                assert forall|j: int| 0 <= j < s@.len() implies s@[j] != '|' by {
                    lemma_pair_list_bar_free(s@, 2, 11, j);
                }
            }
            let bt = match pair_ints(s, 2, 11) {
                Some(v) => v,
                None => return None,
            };
            if !(NumberUtil::array_sort_from_min_to_max(&bt).is_ok()) {
                return None;
            }
            if !(within(&red, 35) && within(&bd, 12) && within(&bt, 12)) {
                return None;
            }
            if !disjoint(&bd, &bt) {
                return None;
            }
            Some(banker_bets(0, red.len(), 1, bt.len()))
        } else {
            if !check_pair_list(f, 1, 4) {
                return None;
            }
            let sp = split_at(s, '|');
            if sp.len() != 2 {
                return None;
            }
            assert(sp@[0]@ == split_at_char(s@, '|')[0]);
            assert(sp@[1]@ == split_at_char(s@, '|')[1]);
            proof {
                lemma_bar_pieces(s@);
                assert(no_bar(f@)) by {
                    if !no_bar(f@) {
                        let j = choose|j: int| 0 <= j < f@.len() && f@[j] == '|';
                        assert(f@.contains(f@[j]));
                    }
                }
            }
            let rd = match pair_ints(f, 1, 4) {
                Some(v) => v,
                None => return None,
            };
            let rt = match pair_ints(sp[0].as_slice(), 1, 35) {
                Some(v) => v,
                None => return None,
            };
            let bl = match pair_ints(sp[1].as_slice(), 2, 12) {
                Some(v) => v,
                None => return None,
            };
            if !(NumberUtil::array_sort_from_min_to_max(&rd).is_ok() && NumberUtil::array_sort_from_min_to_max(
                &rt,
            ).is_ok() && NumberUtil::array_sort_from_min_to_max(&bl).is_ok()) {
                return None;
            }
            if !(within(&rd, 35) && within(&rt, 35) && within(&bl, 12)) {
                return None;
            }
            if !disjoint(&rd, &rt) {
                return None;
            }
            Some(banker_bets(rd.len(), rt.len(), 0, bl.len()))
        }
    } else if parts.len() == 3 {
        assert(parts@[0]@ == ps[0]);
        assert(parts@[1]@ == ps[1]);
        assert(parts@[2]@ == ps[2]);
        let mp = split_at(parts[1].as_slice(), '|');
        if mp.len() != 2 {
            return None;
        }
        assert(mp@[0]@ == split_at_char(ps[1], '|')[0]);
        assert(mp@[1]@ == split_at_char(ps[1], '|')[1]);
        proof {
            lemma_bar_pieces(ps[1]);
        }
        if !check_pair_list(parts[0].as_slice(), 1, 4) || !check_pair_list(parts[2].as_slice(), 2, 12) {
            return None;
        }
        let rt = match pair_ints(mp[0].as_slice(), 1, 35) {
            Some(v) => v,
            None => return None,
        };
        let bd = match pair_ints(mp[1].as_slice(), 1, 1) {
            Some(v) => v,
            None => return None,
        };
        proof {
            assert(no_bar(ps[0])) by {
                if !no_bar(ps[0]) {
                    let j = choose|j: int| 0 <= j < ps[0].len() && ps[0][j] == '|';
                    assert(!is_two_digits(split_at_char(ps[0], ',')[0]) || true);
                    lemma_pair_list_bar_free(ps[0], 1, 4, j);
                }
            }
            assert(no_bar(ps[2])) by {
                if !no_bar(ps[2]) {
                    let j = choose|j: int| 0 <= j < ps[2].len() && ps[2][j] == '|';
                    lemma_pair_list_bar_free(ps[2], 2, 12, j);
                }
            }
        }
        let rd = match pair_ints(parts[0].as_slice(), 1, 4) {
            Some(v) => v,
            None => return None,
        };
        let bt = match pair_ints(parts[2].as_slice(), 2, 12) {
            Some(v) => v,
            None => return None,
        };
        if !(sorted_in(&rd, 35) && sorted_in(&rt, 35) && sorted_in(&bd, 12) && sorted_in(&bt, 12)) {
            return None;
        }
        if !disjoint(&rd, &rt) || !disjoint(&bd, &bt) {
            return None;
        }
        Some(banker_bets(rd.len(), rt.len(), bd.len(), bt.len()))
    } else {
        None
    }
}

/// A list of two-digit numbers holds only digits and `,`.
proof fn lemma_pair_list_bar_free(s: Seq<char>, lo: int, hi: int, j: int)
    requires
        is_pair_list(s, lo, hi),
        0 <= j < s.len(),
    ensures
        s[j] != '|',
{
    lemma_split_char_origin(s, seq![','], j);
    if s[j] == '|' {
        if seq![','].contains(s[j]) {
            let k = choose|k: int| 0 <= k < 1 && seq![','][k] == s[j];
            assert(seq![','][0] == ',');
        } else {
            let (i, k) = choose|i: int, k: int|
                0 <= i < split_at_char(s, ',').len() && 0 <= k < split_at_char(s, ',')[i].len()
                    && #[trigger] split_at_char(s, ',')[i][k] == s[j];
            assert(is_two_digits(split_at_char(s, ',')[i]));
        }
    }
}

impl ValidateDlt1030 {
    /// Banker bets: bankers and the other numbers separated by `$` in the red
    /// zone, the blue zone, or both; the result is the number of bets, which
    /// must be at least two.
    pub fn validate(&self, ticket: &Ticket, game: &Game, play_type: &PlayType, bet_type: &BetType) -> (r: Result<i32, i32>)
        ensures
            r == validate_dlt_banker(ticket.number()),
    {
        let cs = chars_of(ticket.get_number());
        match banker_count(cs.as_slice()) {
            None => Err(ErrCode::NumberIsWrong.code()),
            Some(c) => if c < 2 {
                Err(ErrCode::NumberIsWrong.code())
            } else {
                Ok(c as i32)
            },
        }
    }
}

/// The numbers `s` are strictly increasing and all lie in `lo..=hi`.
pub open spec fn increasing_within(s: Seq<i32>, lo: int, hi: int) -> bool {
    &&& forall|i: int, j: int| 0 <= i < j < s.len() ==> s[i] < s[j]
    &&& forall|i: int| 0 <= i < s.len() ==> lo <= #[trigger] s[i] <= hi
}

proof fn lemma_zone_within(s: Seq<i32>, hi: i32)
    requires
        sort_check(s) is Ok,
        margin_check(s, 1, hi) is Ok,
    ensures
        increasing_within(s, 1, hi as int),
        s.len() >= 1,
{
    assert forall|i: int| 0 <= i < s.len() implies 1 <= #[trigger] s[i] <= hi by {
        if i > 0 {
            assert(s[0] < s[i]);
        }
        if i < s.len() - 1 {
            assert(s[i] < s[s.len() - 1]);
        }
    }
}

/// A lottery number that passes validation has in every bet red numbers
/// that are strictly increasing and within 1 to 35, and blue numbers that
/// are strictly increasing and within 1 to 12: for single bets (at most five
/// of them, one bet each) and for a multiple bet alike.
pub proof fn lemma_dlt_valid_numbers(number: Seq<char>)
    ensures
        validate_dlt_single(number) is Ok ==> {
            &&& split_at_char(number, ';').len() <= 5
            &&& validate_dlt_single(number) == Ok::<i32, i32>(split_at_char(number, ';').len() as i32)
            &&& forall|i: int| 0 <= i < split_at_char(number, ';').len() ==> {
                &&& increasing_within(ints(#[trigger] split_at_char(split_at_char(number, ';')[i], '|')[0]), 1, 35)
                &&& increasing_within(ints(split_at_char(split_at_char(number, ';')[i], '|')[1]), 1, 12)
            }
        },
        validate_dlt_multiple(number) is Ok ==> {
            &&& increasing_within(ints(split_at_char(number, '|')[0]), 1, 35)
            &&& increasing_within(ints(split_at_char(number, '|')[1]), 1, 12)
        },
{
    let v = split_at_char(number, ';');
    if validate_dlt_single(number) is Ok {
        assert forall|i: int| 0 <= i < v.len() implies {
            &&& increasing_within(ints(#[trigger] split_at_char(v[i], '|')[0]), 1, 35)
            &&& increasing_within(ints(split_at_char(v[i], '|')[1]), 1, 12)
        } by {
            assert(is_dlt_single(v[i]) && dlt_zone_check(v[i]) is Ok);
            let ps = split_at_char(v[i], '|');
            lemma_zone_within(number_list_values(ps[0]), 35);
            lemma_zone_within(number_list_values(ps[1]), 12);
        }
    }
    if validate_dlt_multiple(number) is Ok {
        let ps = split_at_char(number, '|');
        lemma_zone_within(number_list_values(ps[0]), 35);
        lemma_zone_within(number_list_values(ps[1]), 12);
    }
}

} // verus!
