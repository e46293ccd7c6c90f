use vstd::prelude::*;
use crate::cons::{err_num, ErrCode};
use crate::game::base::{BetType, Game, PlayType, Ticket};
use crate::game::format::{check_pls_entry, check_pls_multiple, is_one_digit, is_pls_entry, is_pls_multiple, split_at};
use crate::game::validate::dlt::{lemma_bar_pieces, no_bar, number_is_wrong};
use crate::text::{chars_of, is_digit, split_at_char, views};
use crate::util::number::{lemma_short_number_list, number_list_values, strictly_increasing, NumberUtil};

verus! {

/// The result of validating direct pick-three bets: at most five entries
/// `d|d|d` separated by `;`; the result is the number of entries.
pub open spec fn validate_pls_single(number: Seq<char>) -> Result<i32, i32> {
    let v = split_at_char(number, ';');
    if v.len() > 5 {
        Err(err_num(ErrCode::CountBtFive))
    } else if forall|i: int| 0 <= i < v.len() ==> #[trigger] is_pls_entry(v[i]) {
        Ok(v.len() as i32)
    } else {
        Err(number_is_wrong())
    }
}

/// The digits chosen for each of the three positions of a multiple bet.
pub open spec fn pls_lists(number: Seq<char>) -> Seq<Seq<i32>> {
    split_at_char(number, '|').map_values(|p: Seq<char>| number_list_values(p))
}

/// The number of bets of a multiple pick-three bet: the product of the
/// numbers of digits chosen for the three positions.
pub open spec fn pls_count(number: Seq<char>) -> int {
    let ps = split_at_char(number, '|');
    (split_at_char(ps[0], ',').len() * split_at_char(ps[1], ',').len() * split_at_char(ps[2], ',').len()) as int
}

/// The result of validating a multiple pick-three bet: three lists of digits,
/// each strictly increasing, making more than one bet.
pub open spec fn validate_pls_multiple(number: Seq<char>) -> Result<i32, i32> {
    if is_pls_multiple(number) && (forall|i: int| 0 <= i < 3 ==> #[trigger] strictly_increasing(
        pls_lists(number)[i],
    )) && pls_count(number) > 1 {
        Ok(pls_count(number) as i32)
    } else {
        Err(number_is_wrong())
    }
}

/// Direct bets of the pick-three lottery.
pub struct ValidatePls0101;

impl ValidatePls0101 {
    /// At most five entries `d|d|d` separated by `;`; the result is the
    /// number of entries.
    pub fn validate(&self, ticket: &Ticket, game: &Game, play_type: &PlayType, bet_type: &BetType) -> (r: Result<i32, i32>)
        ensures
            r == validate_pls_single(ticket.number()),
    {
        let cs = chars_of(ticket.get_number());
        let v = split_at(cs.as_slice(), ';');
        let ghost vs = split_at_char(ticket.number(), ';');
        if v.len() > 5 {
            return Err(ErrCode::CountBtFive.code());
        }
        let mut i: usize = 0;
        while i < v.len()
            invariant
                views(v@) == vs,
                vs == split_at_char(ticket.number(), ';'),
                vs.len() <= 5,
                i <= v@.len(),
                forall|j: int| 0 <= j < i ==> #[trigger] is_pls_entry(vs[j]),
            decreases v@.len() - i,
        {
            assert(v@[i as int]@ == vs[i as int]);
            if !check_pls_entry(v[i].as_slice()) {
                return Err(ErrCode::NumberIsWrong.code());
            }
            i = i + 1;
        }
        Ok(v.len() as i32)
    }
}

/// Multiple bets of the pick-three lottery.
pub struct ValidatePls0102;

/// A list of single digits is a number list of those digits.
proof fn lemma_digit_list_values(p: Seq<char>)
    requires
        no_bar(p),
        forall|k: int| 0 <= k < split_at_char(p, ',').len() ==> #[trigger] is_one_digit(split_at_char(p, ',')[k]),
    ensures
        crate::util::number::is_number_list(p),
        number_list_values(p).len() == split_at_char(p, ',').len(),
{
    let qs = split_at_char(p, ',');
    assert forall|k: int| 0 <= k < qs.len() implies 1 <= (#[trigger] qs[k]).len() <= 2 && crate::text::all_digits(qs[k]) by {
        assert(is_one_digit(qs[k]));
        assert forall|j: int| 0 <= j < qs[k].len() implies #[trigger] is_digit(qs[k][j]) by {
            assert(j == 0);
        }
    }
    lemma_short_number_list(p);
}

impl ValidatePls0102 {
    /// Three lists `d,d,..|d,..|d,..` of increasing digits; the result is the
    /// product of their lengths, which must exceed one.
    pub fn validate(&self, ticket: &Ticket, game: &Game, play_type: &PlayType, bet_type: &BetType) -> (r: Result<i32, i32>)
        ensures
            r == validate_pls_multiple(ticket.number()),
    {
        let cs = chars_of(ticket.get_number());
        if !check_pls_multiple(cs.as_slice()) {
            return Err(ErrCode::NumberIsWrong.code());
        }
        let ghost number = ticket.number();
        let ps = split_at(cs.as_slice(), '|');
        let ghost pss = split_at_char(number, '|');
        proof {
            lemma_bar_pieces(number);
        }
        let mut count: i32 = 1;
        let mut i: usize = 0;
        while i < 3
            invariant
                views(ps@) == pss,
                pss == split_at_char(number, '|'),
                number == cs@,
                number == ticket.number(),
                is_pls_multiple(number),
                forall|k: int| 0 <= k < pss.len() ==> no_bar(#[trigger] pss[k]),
                i <= 3,
                forall|k: int| 0 <= k < i ==> #[trigger] strictly_increasing(pls_lists(number)[k]),
                count == (if i == 0 {
                    1
                } else if i == 1 {
                    split_at_char(pss[0], ',').len() as int
                } else if i == 2 {
                    (split_at_char(pss[0], ',').len() * split_at_char(pss[1], ',').len()) as int
                } else {
                    pls_count(number)
                }),
                1 <= count <= (if i == 0 { 1int } else if i == 1 { 10int } else if i == 2 { 100int } else { 1000int }),
            decreases 3 - i,
        {
            let p = ps[i].as_slice();
            assert(p@ == pss[i as int]);
            assert(crate::game::format::is_digit_list(pss[i as int]));
            proof {
                lemma_digit_list_values(p@);
            }
            let ints = NumberUtil::ints_of_chars(p);
            assert(ints@ == pls_lists(number)[i as int]);
            if NumberUtil::array_sort_from_min_to_max(&ints).is_err() {
                assert(!strictly_increasing(pls_lists(number)[i as int]));
                return Err(ErrCode::NumberIsWrong.code());
            }
            let n = ints.len() as i32;
            assert(1 <= n <= 10);
            assert(1 <= count * n <= (if i == 0 { 10int } else if i == 1 { 100int } else { 1000int })) by (nonlinear_arith)
                requires
                    1 <= count <= (if i == 0 { 1int } else if i == 1 { 10int } else { 100int }),
                    1 <= n <= 10,
            ;
            count = count * n;
            i = i + 1;
        }
        if count <= 1 {
            return Err(ErrCode::NumberIsWrong.code());
        }
        Ok(count)
    }
}

} // verus!
