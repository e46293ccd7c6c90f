use vstd::prelude::*;
use crate::cons::{err_num, ErrCode};
use crate::game::base::{BetType, Game, PlayType, Ticket};
use crate::game::format::{
    check_parlay_number, check_single_number, is_mixed_parlay_number, is_parlay_number, is_short_list,
    is_short_number, is_single_number, split_at,
};
use crate::game::parlay::{get_count, get_pass_levels, lens_positive, levels_in_range, parlay_count, pass_levels};
use crate::game::validate::dlt::number_is_wrong;
use crate::text::{
    chars_of, digit_value, int_text_value, lemma_short_digits_text, lemma_split_bounds, lemma_split_on_len,
    parse_i64_chars, split_at_char, views,
};

verus! {

/// The kinds of options of a sports match.
#[derive(Debug, Clone, Copy, PartialEq, Eq)]
pub enum JcOption {
    /// Home win `3`, draw `1` or home loss `0` (also against a handicap).
    WinDrawLose,
    /// The total number of goals, `0` to `7` (7 or more).
    Goals,
    /// The final score.
    Score,
    /// The results at half time and at full time.
    HalfFull,
}

/// The scores that can be bet on: exact scores, and `90`, `99`, `09` for
/// another win, draw or loss.
pub open spec fn score_pair(a: char, b: char) -> bool {
    ||| (a == '1' && b == '0') || (a == '2' && b == '0') || (a == '3' && b == '0') || (a == '4' && b == '0')
    ||| (a == '5' && b == '0') || (a == '2' && b == '1') || (a == '3' && b == '1') || (a == '4' && b == '1')
    ||| (a == '5' && b == '1') || (a == '3' && b == '2') || (a == '4' && b == '2') || (a == '5' && b == '2')
    ||| (a == '9' && b == '0') || (a == '0' && b == '0') || (a == '1' && b == '1') || (a == '2' && b == '2')
    ||| (a == '3' && b == '3') || (a == '9' && b == '9') || (a == '0' && b == '1') || (a == '0' && b == '2')
    ||| (a == '0' && b == '3') || (a == '0' && b == '4') || (a == '0' && b == '5') || (a == '1' && b == '2')
    ||| (a == '1' && b == '3') || (a == '1' && b == '4') || (a == '1' && b == '5') || (a == '2' && b == '3')
    ||| (a == '2' && b == '4') || (a == '2' && b == '5') || (a == '0' && b == '9')
}

/// The half-time and full-time results: each of `3`, `1`, `0`.
pub open spec fn half_full_pair(a: char, b: char) -> bool {
    (a == '3' || a == '1' || a == '0') && (b == '3' || b == '1' || b == '0')
}

/// Whether the option `p` is one of the kind `kind`.
pub open spec fn option_allowed(kind: JcOption, p: Seq<char>) -> bool {
    match kind {
        JcOption::WinDrawLose => p == seq!['3'] || p == seq!['1'] || p == seq!['0'],
        JcOption::Goals => 0 <= int_text_value(p) <= 7,
        JcOption::Score => p.len() == 2 && score_pair(p[0], p[1]),
        JcOption::HalfFull => p.len() == 2 && half_full_pair(p[0], p[1]),
    }
}

fn score_pair_exec(a: char, b: char) -> (r: bool)
    ensures
        r == score_pair(a, b),
{
    (a == '1' && b == '0') || (a == '2' && b == '0') || (a == '3' && b == '0') || (a == '4' && b == '0')
    || (a == '5' && b == '0') || (a == '2' && b == '1') || (a == '3' && b == '1') || (a == '4' && b == '1')
    || (a == '5' && b == '1') || (a == '3' && b == '2') || (a == '4' && b == '2') || (a == '5' && b == '2')
    || (a == '9' && b == '0') || (a == '0' && b == '0') || (a == '1' && b == '1') || (a == '2' && b == '2')
    || (a == '3' && b == '3') || (a == '9' && b == '9') || (a == '0' && b == '1') || (a == '0' && b == '2')
    || (a == '0' && b == '3') || (a == '0' && b == '4') || (a == '0' && b == '5') || (a == '1' && b == '2')
    || (a == '1' && b == '3') || (a == '1' && b == '4') || (a == '1' && b == '5') || (a == '2' && b == '3')
    || (a == '2' && b == '4') || (a == '2' && b == '5') || (a == '0' && b == '9')
}

fn result_char(a: char) -> (r: bool)
    ensures
        r == (a == '3' || a == '1' || a == '0'),
{
    a == '3' || a == '1' || a == '0'
}

/// Whether the option `p`, of one or two digits, is of the kind `kind`.
pub fn check_option(kind: JcOption, p: &[char]) -> (r: bool)
    requires
        is_short_number(p@),
    ensures
        r == option_allowed(kind, p@),
{
    match kind {
        JcOption::WinDrawLose => {
            let r = p.len() == 1 && result_char(p[0]);
            assert(r ==> p@ =~= seq![p@[0]]);
            assert((p@ == seq!['3'] || p@ == seq!['1'] || p@ == seq!['0']) ==> p@.len() == 1 && p@[0] == p@[0]);
            r
        },
        JcOption::Goals => {
            proof {
                lemma_short_digits_text(p@);
                assert(p@.subrange(0, p@.len() as int) =~= p@);
            }
            let v = parse_i64_chars(p, 0, p.len());
            0 <= v && v <= 7
        },
        JcOption::Score => p.len() == 2 && score_pair_exec(p[0], p[1]),
        JcOption::HalfFull => p.len() == 2 && result_char(p[0]) && result_char(p[1]),
    }
}

/// The options of a single-match bet `code:options|1*1`.
pub open spec fn single_options(number: Seq<char>) -> Seq<Seq<char>> {
    split_at_char(split_at_char(split_at_char(number, '|')[0], ':')[1], ',')
}

/// The result of validating a single-match bet: the number of options, each
/// of the kind `kind`.
pub open spec fn validate_single_match(number: Seq<char>, kind: JcOption) -> Result<i32, i32> {
    if !is_single_number(number) {
        Err(number_is_wrong())
    } else if forall|i: int| 0 <= i < single_options(number).len() ==> #[trigger] option_allowed(kind, single_options(number)[i]) {
        Ok(single_options(number).len() as i32)
    } else {
        Err(number_is_wrong())
    }
}

/// The kind of options of a play code in a mixed bet.
pub open spec fn play_kind(code: Seq<char>) -> Option<JcOption> {
    if code == seq!['0', '1'] || code == seq!['0', '2'] {
        Some(JcOption::WinDrawLose)
    } else if code == seq!['0', '3'] {
        Some(JcOption::Goals)
    } else if code == seq!['0', '4'] {
        Some(JcOption::Score)
    } else if code == seq!['0', '5'] {
        Some(JcOption::HalfFull)
    } else {
        None
    }
}

pub(crate) fn play_kind_exec(code: &[char]) -> (r: Option<JcOption>)
    ensures
        r == play_kind(code@),
{
    if code.len() != 2 || code[0] != '0' {
        proof {
            assert(code@ != seq!['0', '1'] && code@ != seq!['0', '2'] && code@ != seq!['0', '3']
                && code@ != seq!['0', '4'] && code@ != seq!['0', '5']) by {
                if code@.len() == 2 {
                    assert(seq!['0', '1'][0] == '0');
                }
            }
        }
        return None;
    }
    let c = code[1];
    assert(code@ =~= seq!['0', c]);
    if c == '1' || c == '2' {
        Some(JcOption::WinDrawLose)
    } else if c == '3' {
        Some(JcOption::Goals)
    } else if c == '4' {
        Some(JcOption::Score)
    } else if c == '5' {
        Some(JcOption::HalfFull)
    } else {
        proof {
            assert(seq!['0', c] != seq!['0', '1']) by {
                assert(seq!['0', '1'][1] == '1');
            }
            assert(seq!['0', c] != seq!['0', '2']) by {
                assert(seq!['0', '2'][1] == '2');
            }
            assert(seq!['0', c] != seq!['0', '3']) by {
                assert(seq!['0', '3'][1] == '3');
            }
            assert(seq!['0', c] != seq!['0', '4']) by {
                assert(seq!['0', '4'][1] == '4');
            }
            assert(seq!['0', c] != seq!['0', '5']) by {
                assert(seq!['0', '5'][1] == '5');
            }
        }
        None
    }
}

/// The matches of a parlay `matches|m*n`.
pub open spec fn parlay_matches(number: Seq<char>) -> Seq<Seq<char>> {
    split_at_char(split_at_char(number, '|')[0], ';')
}

/// The pass type `m*n` of a parlay.
pub open spec fn parlay_pass(number: Seq<char>) -> Seq<char> {
    split_at_char(number, '|')[1]
}

/// The options of one match of a parlay, mixed or not.
pub open spec fn match_options(m: Seq<char>, mixed: bool) -> Seq<Seq<char>> {
    split_at_char(split_at_char(m, ':')[if mixed { 2int } else { 1int }], ',')
}

/// The kind of options of one match: the play's kind in a mixed parlay,
/// `kind` otherwise.
pub open spec fn match_kind(m: Seq<char>, mixed: bool, kind: JcOption) -> Option<JcOption> {
    if mixed {
        play_kind(split_at_char(m, ':')[1])
    } else {
        Some(kind)
    }
}

/// Every option of the match is of its kind.
pub open spec fn match_ok(m: Seq<char>, mixed: bool, kind: JcOption) -> bool {
    &&& match_kind(m, mixed, kind) is Some
    &&& forall|j: int| 0 <= j < match_options(m, mixed).len() ==> #[trigger] option_allowed(
        match_kind(m, mixed, kind)->0,
        match_options(m, mixed)[j],
    )
}

/// The number of options of each match.
pub open spec fn parlay_lens(number: Seq<char>, mixed: bool) -> Seq<i32> {
    parlay_matches(number).map_values(|m: Seq<char>| match_options(m, mixed).len() as i32)
}

/// The parlay has the shape of its play.
pub open spec fn parlay_shape(number: Seq<char>, mixed: bool) -> bool {
    if mixed {
        is_mixed_parlay_number(number)
    } else {
        is_parlay_number(number)
    }
}

/// The parlay is well formed and every option fits its match.
pub open spec fn parlay_valid(number: Seq<char>, mixed: bool, kind: JcOption) -> bool {
    &&& parlay_shape(number, mixed)
    &&& forall|i: int| 0 <= i < parlay_matches(number).len() ==> #[trigger] match_ok(parlay_matches(number)[i], mixed, kind)
}

/// The number of bets of a valid parlay.
pub open spec fn parlay_bets(number: Seq<char>, mixed: bool) -> int {
    let pass = parlay_pass(number);
    parlay_count(parlay_lens(number, mixed), digit_value(pass[0]), pass_levels(pass[0], pass[2])->0)
}

/// The result of validating a parlay.
pub open spec fn validate_parlay(number: Seq<char>, mixed: bool, kind: JcOption) -> Result<i32, i32> {
    if parlay_valid(number, mixed, kind) {
        Ok(parlay_bets(number, mixed) as i32)
    } else {
        Err(number_is_wrong())
    }
}

/// A valid parlay can be counted: its pass type exists, there are enough
/// matches for it, and the number of bets fits an `i32`.
pub open spec fn parlay_countable(number: Seq<char>, mixed: bool, kind: JcOption) -> bool {
    let pass = parlay_pass(number);
    parlay_valid(number, mixed, kind) ==> {
        &&& pass_levels(pass[0], pass[2]) is Some
        &&& levels_in_range(parlay_lens(number, mixed), digit_value(pass[0]), pass_levels(pass[0], pass[2])->0)
        &&& parlay_bets(number, mixed) <= i32::MAX
    }
}

/// Each option count of a parlay is between 1 and the length of the text plus one.
proof fn lemma_parlay_lens_positive(number: Seq<char>, mixed: bool)
    requires
        number.len() < i32::MAX,
        parlay_shape(number, mixed),
    ensures
        lens_positive(parlay_lens(number, mixed)),
        forall|i: int| 0 <= i < parlay_matches(number).len() ==> 1 <= #[trigger] match_options(
            parlay_matches(number)[i],
            mixed,
        ).len() <= number.len() + 1,
{
    let bar = split_at_char(number, '|');
    lemma_split_bounds(number, seq!['|']);
    lemma_split_on_len(number, seq!['|']);
    let ms = parlay_matches(number);
    lemma_split_bounds(bar[0], seq![';']);
    assert forall|i: int| 0 <= i < parlay_lens(number, mixed).len() implies #[trigger] parlay_lens(number, mixed)[i] >= 1 by {
        let m = ms[i];
        let cs = split_at_char(m, ':');
        lemma_split_bounds(m, seq![':']);
        let k = if mixed { 2int } else { 1int };
        if mixed {
            assert(crate::game::format::is_mixed_match_item(ms[i]));
        } else {
            assert(crate::game::format::is_match_item(ms[i]));
        }
        assert(cs.len() == if mixed { 3int } else { 2int });
        lemma_split_bounds(cs[k], seq![',']);
        lemma_split_on_len(cs[k], seq![',']);
        assert(1 <= match_options(m, mixed).len() <= number.len() + 1);
    }
    assert forall|i: int| 0 <= i < parlay_matches(number).len() implies 1 <= #[trigger] match_options(
        parlay_matches(number)[i],
        mixed,
    ).len() <= number.len() + 1 by {
        let m = ms[i];
        let cs = split_at_char(m, ':');
        lemma_split_bounds(m, seq![':']);
        let k = if mixed { 2int } else { 1int };
        if mixed {
            assert(crate::game::format::is_mixed_match_item(ms[i]));
        } else {
            assert(crate::game::format::is_match_item(ms[i]));
        }
        lemma_split_bounds(cs[k], seq![',']);
        lemma_split_on_len(cs[k], seq![',']);
    }
}

/// The options of a single-match bet, with its well-formedness.
fn single_options_of(number: &[char]) -> (r: Option<Vec<Vec<char>>>)
    ensures
        r is Some <==> is_single_number(number@),
        r matches Some(v) ==> views(v@) == single_options(number@) && (forall|i: int|
            0 <= i < v@.len() ==> #[trigger] is_short_number(v@[i]@)),
{
    if !check_single_number(number) {
        return None;
    }
    let ps = split_at(number, '|');
    assert(ps@[0]@ == split_at_char(number@, '|')[0]);
    let cs = split_at(ps[0].as_slice(), ':');
    assert(cs@[1]@ == split_at_char(split_at_char(number@, '|')[0], ':')[1]);
    let opts = split_at(cs[1].as_slice(), ',');
    assert forall|i: int| 0 <= i < opts@.len() implies #[trigger] is_short_number(opts@[i]@) by {
        assert(opts@[i]@ == single_options(number@)[i]);
        assert(is_short_list(split_at_char(split_at_char(number@, '|')[0], ':')[1]));
    }
    Some(opts)
}

/// The result of validating a single-match bet of the kind `kind`.
pub fn validate_single_chars(number: &[char], kind: JcOption) -> (r: Result<i32, i32>)
    requires
        number@.len() < i32::MAX,
    ensures
        r == validate_single_match(number@, kind),
{
    let opts = match single_options_of(number) {
        Some(v) => v,
        None => return Err(ErrCode::NumberIsWrong.code()),
    };
    let ghost os = single_options(number@);
    proof {
        let s0 = split_at_char(number@, '|');
        lemma_split_bounds(number@, seq!['|']);
        lemma_split_on_len(number@, seq!['|']);
        lemma_split_bounds(s0[0], seq![':']);
        lemma_split_bounds(split_at_char(s0[0], ':')[1], seq![',']);
    }
    let mut i: usize = 0;
    while i < opts.len()
        invariant
            views(opts@) == os,
            os == single_options(number@),
            is_single_number(number@),
            forall|k: int| 0 <= k < opts@.len() ==> #[trigger] is_short_number(opts@[k]@),
            i <= opts@.len(),
            forall|k: int| 0 <= k < i ==> #[trigger] option_allowed(kind, os[k]),
        decreases opts@.len() - i,
    {
        assert(opts@[i as int]@ == os[i as int]);
        if !check_option(kind, opts[i].as_slice()) {
            return Err(ErrCode::NumberIsWrong.code());
        }
        i = i + 1;
    }
    Ok(opts.len() as i32)
}

/// The result of validating a parlay, plain with options of the kind `kind`
/// or mixed.
pub fn validate_parlay_chars(number: &[char], mixed: bool, kind: JcOption) -> (r: Result<i32, i32>)
    requires
        number@.len() < i32::MAX,
        parlay_countable(number@, mixed, kind),
    ensures
        r == validate_parlay(number@, mixed, kind),
{
    if !check_parlay_number(number, mixed) {
        return Err(ErrCode::NumberIsWrong.code());
    }
    let ps = split_at(number, '|');
    assert(ps@[0]@ == split_at_char(number@, '|')[0]);
    assert(ps@[1]@ == split_at_char(number@, '|')[1]);
    let ms = split_at(ps[0].as_slice(), ';');
    let ghost mss = parlay_matches(number@);
    let mut lens: Vec<i32> = Vec::new();
    let mut i: usize = 0;
    while i < ms.len()
        invariant
            views(ms@) == mss,
            mss == parlay_matches(number@),
            parlay_shape(number@, mixed),
            number@.len() < i32::MAX,
            i <= ms@.len(),
            lens@ == parlay_lens(number@, mixed).take(i as int),
            forall|k: int| 0 <= k < i ==> #[trigger] match_ok(mss[k], mixed, kind),
        decreases ms@.len() - i,
    {
        let m = ms[i].as_slice();
        assert(m@ == mss[i as int]);
        let ghost is_mixed = mixed;
        assert(if mixed { crate::game::format::is_mixed_match_item(m@) } else { crate::game::format::is_match_item(m@) });
        let cs = split_at(m, ':');
        let kind_i = if mixed {
            assert(cs@[1]@ == split_at_char(m@, ':')[1]);
            match play_kind_exec(cs[1].as_slice()) {
                Some(k) => k,
                None => {
                    assert(!match_ok(mss[i as int], mixed, kind));
                    return Err(ErrCode::NumberIsWrong.code());
                },
            }
        } else {
            kind
        };
        assert(Some(kind_i) == match_kind(m@, mixed, kind));
        let oi: usize = if mixed { 2 } else { 1 };
        assert(cs@[oi as int]@ == split_at_char(m@, ':')[oi as int]);
        let opts = split_at(cs[oi].as_slice(), ',');
        let ghost os = match_options(m@, mixed);
        assert(is_short_list(split_at_char(m@, ':')[oi as int]));
        proof {
            lemma_parlay_lens_positive(number@, mixed);
            assert(parlay_lens(number@, mixed)[i as int] == opts@.len() as i32);
        }
        lens.push(opts.len() as i32);
        let mut j: usize = 0;
        while j < opts.len()
            invariant
                views(opts@) == os,
                os == match_options(m@, mixed),
                m@ == mss[i as int],
                mss == parlay_matches(number@),
                i < mss.len(),
                Some(kind_i) == match_kind(m@, mixed, kind),
                forall|k: int| 0 <= k < os.len() ==> #[trigger] is_short_number(os[k]),
                j <= opts@.len(),
                forall|k: int| 0 <= k < j ==> #[trigger] option_allowed(kind_i, os[k]),
            decreases opts@.len() - j,
        {
            assert(opts@[j as int]@ == os[j as int]);
            if !check_option(kind_i, opts[j].as_slice()) {
                assert(!option_allowed(match_kind(mss[i as int], mixed, kind)->0, match_options(mss[i as int], mixed)[j as int]));
                assert(!match_ok(mss[i as int], mixed, kind));
                return Err(ErrCode::NumberIsWrong.code());
            }
            j = j + 1;
        }
        assert(match_ok(mss[i as int], mixed, kind));
        assert(lens@ =~= parlay_lens(number@, mixed).take(i + 1));
        i = i + 1;
    }
    assert(lens@ =~= parlay_lens(number@, mixed));
    assert(parlay_valid(number@, mixed, kind));
    proof {
        lemma_parlay_lens_positive(number@, mixed);
    }
    let pass = ps[1].as_slice();
    let levels = match get_pass_levels(pass[0], pass[2]) {
        Some(v) => v,
        None => return Err(ErrCode::NumberIsWrong.code()),
    };
    let m = (pass[0] as u32 - '0' as u32) as i64;
    let count = get_count(&lens, m, &levels);
    Ok(count)
}

/// Single-match bets on win, draw or loss.
pub struct ValidateJcd0101;

/// Single-match bets on win, draw or loss against a handicap.
pub struct ValidateJcd0201;

/// Single-match bets on the total number of goals.
pub struct ValidateJcd0301;

/// Single-match bets on the score.
pub struct ValidateJcd0401;

/// Single-match bets on the half-time and full-time results.
pub struct ValidateJcd0501;

impl ValidateJcd0101 {
    /// `code:options|1*1` with options `3`, `1` or `0`; the result is the
    /// number of options.
    pub fn validate(&self, ticket: &Ticket, game: &Game, play_type: &PlayType, bet_type: &BetType) -> (r: Result<i32, i32>)
        requires
            ticket.number().len() < i32::MAX,
        ensures
            r == validate_single_match(ticket.number(), JcOption::WinDrawLose),
    {
        let cs = chars_of(ticket.get_number());
        validate_single_chars(cs.as_slice(), JcOption::WinDrawLose)
    }
}

impl ValidateJcd0201 {
    /// As `ValidateJcd0101`.
    pub fn validate(&self, ticket: &Ticket, game: &Game, play_type: &PlayType, bet_type: &BetType) -> (r: Result<i32, i32>)
        requires
            ticket.number().len() < i32::MAX,
        ensures
            r == validate_single_match(ticket.number(), JcOption::WinDrawLose),
    {
        let cs = chars_of(ticket.get_number());
        validate_single_chars(cs.as_slice(), JcOption::WinDrawLose)
    }
}

impl ValidateJcd0301 {
    /// `code:options|1*1` with goal counts 0 to 7; the result is the number
    /// of options.
    pub fn validate(&self, ticket: &Ticket, game: &Game, play_type: &PlayType, bet_type: &BetType) -> (r: Result<i32, i32>)
        requires
            ticket.number().len() < i32::MAX,
        ensures
            r == validate_single_match(ticket.number(), JcOption::Goals),
    {
        let cs = chars_of(ticket.get_number());
        validate_single_chars(cs.as_slice(), JcOption::Goals)
    }
}

impl ValidateJcd0401 {
    /// `code:options|1*1` with scores; the result is the number of options.
    pub fn validate(&self, ticket: &Ticket, game: &Game, play_type: &PlayType, bet_type: &BetType) -> (r: Result<i32, i32>)
        requires
            ticket.number().len() < i32::MAX,
        ensures
            r == validate_single_match(ticket.number(), JcOption::Score),
    {
        let cs = chars_of(ticket.get_number());
        validate_single_chars(cs.as_slice(), JcOption::Score)
    }
}

impl ValidateJcd0501 {
    /// `code:options|1*1` with half-time and full-time results; the result is
    /// the number of options.
    pub fn validate(&self, ticket: &Ticket, game: &Game, play_type: &PlayType, bet_type: &BetType) -> (r: Result<i32, i32>)
        requires
            ticket.number().len() < i32::MAX,
        ensures
            r == validate_single_match(ticket.number(), JcOption::HalfFull),
    {
        let cs = chars_of(ticket.get_number());
        validate_single_chars(cs.as_slice(), JcOption::HalfFull)
    }
}

/// Parlays on win, draw or loss.
pub struct ValidateJcc0102;

/// Parlays on win, draw or loss against a handicap.
pub struct ValidateJcc0202;

/// Parlays on the total number of goals.
pub struct ValidateJcc0302;

/// Parlays on the score.
pub struct ValidateJcc0402;

/// Parlays on the half-time and full-time results.
pub struct ValidateJcc0502;

/// Parlays that mix plays, each match naming its play.
pub struct ValidateJcc1002;

impl ValidateJcc0102 {
    /// `code:options;...|m*n` with options `3`, `1`, `0`; the result is the
    /// number of bets of the pass type over the matches.
    pub fn validate(&self, ticket: &Ticket, game: &Game, play_type: &PlayType, bet_type: &BetType) -> (r: Result<i32, i32>)
        requires
            ticket.number().len() < i32::MAX,
            parlay_countable(ticket.number(), false, JcOption::WinDrawLose),
        ensures
            r == validate_parlay(ticket.number(), false, JcOption::WinDrawLose),
    {
        let cs = chars_of(ticket.get_number());
        validate_parlay_chars(cs.as_slice(), false, JcOption::WinDrawLose)
    }
}

impl ValidateJcc0202 {
    /// As `ValidateJcc0102`.
    pub fn validate(&self, ticket: &Ticket, game: &Game, play_type: &PlayType, bet_type: &BetType) -> (r: Result<i32, i32>)
        requires
            ticket.number().len() < i32::MAX,
            parlay_countable(ticket.number(), false, JcOption::WinDrawLose),
        ensures
            r == validate_parlay(ticket.number(), false, JcOption::WinDrawLose),
    {
        let cs = chars_of(ticket.get_number());
        validate_parlay_chars(cs.as_slice(), false, JcOption::WinDrawLose)
    }
}

impl ValidateJcc0302 {
    /// Parlays with goal counts 0 to 7.
    pub fn validate(&self, ticket: &Ticket, game: &Game, play_type: &PlayType, bet_type: &BetType) -> (r: Result<i32, i32>)
        requires
            ticket.number().len() < i32::MAX,
            parlay_countable(ticket.number(), false, JcOption::Goals),
        ensures
            r == validate_parlay(ticket.number(), false, JcOption::Goals),
    {
        let cs = chars_of(ticket.get_number());
        validate_parlay_chars(cs.as_slice(), false, JcOption::Goals)
    }
}

impl ValidateJcc0402 {
    /// Parlays with scores.
    pub fn validate(&self, ticket: &Ticket, game: &Game, play_type: &PlayType, bet_type: &BetType) -> (r: Result<i32, i32>)
        requires
            ticket.number().len() < i32::MAX,
            parlay_countable(ticket.number(), false, JcOption::Score),
        ensures
            r == validate_parlay(ticket.number(), false, JcOption::Score),
    {
        let cs = chars_of(ticket.get_number());
        validate_parlay_chars(cs.as_slice(), false, JcOption::Score)
    }
}

impl ValidateJcc0502 {
    /// Parlays with half-time and full-time results.
    pub fn validate(&self, ticket: &Ticket, game: &Game, play_type: &PlayType, bet_type: &BetType) -> (r: Result<i32, i32>)
        requires
            ticket.number().len() < i32::MAX,
            parlay_countable(ticket.number(), false, JcOption::HalfFull),
        ensures
            r == validate_parlay(ticket.number(), false, JcOption::HalfFull),
    {
        let cs = chars_of(ticket.get_number());
        validate_parlay_chars(cs.as_slice(), false, JcOption::HalfFull)
    }
}

impl ValidateJcc1002 {
    /// `code:play:options;...|m*n` where each play is `01` to `05`.
    pub fn validate(&self, ticket: &Ticket, game: &Game, play_type: &PlayType, bet_type: &BetType) -> (r: Result<i32, i32>)
        requires
            ticket.number().len() < i32::MAX,
            parlay_countable(ticket.number(), true, JcOption::WinDrawLose),
        ensures
            r == validate_parlay(ticket.number(), true, JcOption::WinDrawLose),
    {
        let cs = chars_of(ticket.get_number());
        validate_parlay_chars(cs.as_slice(), true, JcOption::WinDrawLose)
    }
}

} // verus!
