use vstd::prelude::*;
use crate::text::{all_digits, chars_of, digit_value, int_text_value, is_i32_text, lemma_short_digits_text, lemma_split_same_seps, parse_i32_chars, split_at_char, split_chars, split_on, views};

verus! {

/// The separators of a number list: `,` between numbers, `|` between zones.
pub open spec fn number_seps() -> Seq<char> {
    seq![',', '|']
}

/// The pieces of a number list.
pub open spec fn number_pieces(s: Seq<char>) -> Seq<Seq<char>> {
    split_on(s, number_seps())
}

/// Every piece of the number list `s` is a valid `i32` text.
pub open spec fn is_number_list(s: Seq<char>) -> bool {
    forall|i: int| 0 <= i < number_pieces(s).len() ==> #[trigger] is_i32_text(number_pieces(s)[i])
}

/// The numbers of the list `s`.
pub open spec fn number_list_values(s: Seq<char>) -> Seq<i32> {
    number_pieces(s).map_values(|p: Seq<char>| int_text_value(p) as i32)
}

/// Every element is smaller than every later element.
pub open spec fn strictly_increasing(s: Seq<i32>) -> bool {
    forall|i: int, j: int| 0 <= i < j < s.len() ==> s[i] < s[j]
}

/// The result of the sortedness check on `s`.
pub open spec fn sort_check(s: Seq<i32>) -> Result<i32, i32> {
    if strictly_increasing(s) {
        Ok(1i32)
    } else {
        Err(-1i32)
    }
}

/// The result of the bounds check on `s`: it fails for an empty `s` and when
/// the first element is below `min` or the last is above `max`.
pub open spec fn margin_check(s: Seq<i32>, min: i32, max: i32) -> Result<i32, i32> {
    if s.len() == 0 || s[0] < min || s[s.len() - 1] > max {
        Err(-1i32)
    } else {
        Ok(1i32)
    }
}


/// A list of numbers of one or two digits separated by `,`, without `|`, is a
/// number list whose values are those of its pieces.
pub proof fn lemma_short_number_list(s: Seq<char>)
    requires
        forall|j: int| 0 <= j < s.len() ==> s[j] != '|',
        forall|i: int|
            0 <= i < split_at_char(s, ',').len() ==> 1 <= (#[trigger] split_at_char(s, ',')[i]).len() <= 2
                && all_digits(split_at_char(s, ',')[i]),
    ensures
        number_pieces(s) == split_at_char(s, ','),
        is_number_list(s),
        number_list_values(s).len() == split_at_char(s, ',').len(),
        forall|i: int|
            0 <= i < number_list_values(s).len() ==> 0 <= #[trigger] number_list_values(s)[i] <= 99
                && number_list_values(s)[i] == int_text_value(split_at_char(s, ',')[i]),
{
    assert forall|j: int| 0 <= j < s.len() implies (number_seps().contains(#[trigger] s[j]) <==> seq![','].contains(s[j])) by {
        if number_seps().contains(s[j]) {
            let k = choose|k: int| 0 <= k < 2 && number_seps()[k] == s[j];
            assert(k == 0);
            assert(seq![','][0] == s[j]);
        }
        if seq![','].contains(s[j]) {
            assert(number_seps()[0] == s[j]);
        }
    }
    lemma_split_same_seps(s, number_seps(), seq![',']);
    assert forall|i: int| 0 <= i < number_pieces(s).len() implies #[trigger] is_i32_text(number_pieces(s)[i]) by {
        lemma_short_digits_text(split_at_char(s, ',')[i]);
    }
    assert forall|i: int| 0 <= i < number_list_values(s).len() implies 0 <= #[trigger] number_list_values(s)[i] <= 99
        && number_list_values(s)[i] == int_text_value(split_at_char(s, ',')[i]) by {
        lemma_short_digits_text(split_at_char(s, ',')[i]);
    }
}

/// Parsing and checking of number lists.
pub struct NumberUtil;

impl NumberUtil {
    /// The numbers of a list such as `01,02|13`, split at `,` and `|`.
    pub fn to_int_array(number: &str) -> (vec: Vec<i32>)
        requires
            is_number_list(number@),
        ensures
            vec@ == number_list_values(number@),
    {
        let cs = chars_of(number);
        NumberUtil::ints_of_chars(cs.as_slice())
    }

    /// The numbers of the list `cs`, split at `,` and `|`.
    pub fn ints_of_chars(cs: &[char]) -> (vec: Vec<i32>)
        requires
            is_number_list(cs@),
        ensures
            vec@ == number_list_values(cs@),
    {
        let ghost number = cs@;
        let seps = vec![',', '|'];
        assert(seps@ =~= number_seps());
        let pieces = split_chars(cs, seps.as_slice());
        let mut vec: Vec<i32> = Vec::new();
        let mut i: usize = 0;
        while i < pieces.len()
            invariant
                views(pieces@) == number_pieces(number),
                i <= pieces@.len(),
                is_number_list(number),
                vec@ == number_list_values(number).take(i as int),
            decreases pieces@.len() - i,
        {
            let piece = &pieces[i];
            assert(piece@ == number_pieces(number)[i as int]);
            assert(piece@.subrange(0, piece@.len() as int) =~= piece@);
            let v = parse_i32_chars(piece.as_slice(), 0, piece.len());
            vec.push(v);
            i = i + 1;
            assert(vec@ =~= number_list_values(number).take(i as int));
        }
        assert(vec@ =~= number_list_values(number));
        vec
    }

    /// `Ok(1)` where every number is smaller than the next, else `Err(-1)`.
    pub fn array_sort_from_min_to_max(vec: &Vec<i32>) -> (r: Result<i32, i32>)
        ensures
            r == sort_check(vec@),
    {
        let len = vec.len();
        if len >= 2 {
            let mut i: usize = 1;
            while i < len
                invariant
                    len == vec@.len(),
                    1 <= i <= len,
                    strictly_increasing(vec@.take(i as int)),
                decreases len - i,
            {
                if vec[i - 1] >= vec[i] {
                    assert(!strictly_increasing(vec@));
                    return Err(-1);
                }
                assert(strictly_increasing(vec@.take(i + 1))) by {
                    let t = vec@.take(i + 1);
                    assert forall|a: int, b: int| 0 <= a < b < t.len() implies t[a] < t[b] by {
                        if b < i {
                            assert(vec@.take(i as int)[a] < vec@.take(i as int)[b]);
                        } else if a < i - 1 {
                            assert(vec@.take(i as int)[a] < vec@.take(i as int)[i - 1]);
                        }
                    }
                }
                i = i + 1;
            }
            assert(vec@.take(len as int) =~= vec@);
        }
        Ok(1i32)
    }

    /// `Err(-1)` for an empty list or where the first number is below `min` or
    /// the last above `max`; `Ok(1)` otherwise.
    pub fn check_margin(vec: &Vec<i32>, min: i32, max: i32) -> (r: Result<i32, i32>)
        ensures
            r == margin_check(vec@, min, max),
    {
        let len = vec.len();
        if len == 0 {
            return Err(-1);
        }
        let first = vec[0];
        let last = vec[len - 1];
        if first < min || last > max {
            return Err(-1);
        }
        Ok(1i32)
    }
}

} // verus!
