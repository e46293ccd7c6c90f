pub mod dlt;
pub mod jc;
pub mod pls;

pub use self::dlt::{DltHelper, ValidateDlt1010, ValidateDlt1020, ValidateDlt1030};
pub use self::jc::{
    ValidateJcc0102, ValidateJcc0202, ValidateJcc0302, ValidateJcc0402, ValidateJcc0502, ValidateJcc1002,
    ValidateJcd0101, ValidateJcd0201, ValidateJcd0301, ValidateJcd0401, ValidateJcd0501,
};
pub use self::pls::{ValidatePls0101, ValidatePls0102};

use vstd::prelude::*;
use crate::cons::{err_num, ErrCode};
use crate::game::base::{standard_games, BetType, Game, GameFactory, GameView, PlayType, Ticket};
use crate::game::format::{check_ssq_entry, is_ssq_entry, split_at};
use crate::game::validate::dlt::{number_is_wrong, validate_dlt_banker, validate_dlt_multiple, validate_dlt_single};
use crate::game::validate::jc::{parlay_countable, validate_parlay, validate_single_match, JcOption};
use crate::game::validate::pls::{validate_pls_multiple, validate_pls_single};
use crate::text::{chars_of, split_at_char, views};

verus! {

/// The result of validating double-color-ball single bets: at most five
/// entries separated by `;`, and an amount of `entries * price * multiple`.
pub open spec fn validate_ssq(number: Seq<char>, amount: i32, price: i32, multiple: i32) -> Result<i32, i32> {
    let v = split_at_char(number, ';');
    if v.len() > 5 {
        Err(err_num(ErrCode::CountBtFive))
    } else if !(forall|i: int| 0 <= i < v.len() ==> #[trigger] is_ssq_entry(v[i])) {
        Err(number_is_wrong())
    } else if amount == v.len() * price * multiple {
        Ok(v.len() as i32)
    } else {
        Err(err_num(ErrCode::AmountIsWrong))
    }
}

/// Single bets of the double-color-ball lottery.
pub struct ValidateSsq1010;

impl ValidateSsq1010 {
    /// At most five entries separated by `;`, whose amount is the number of
    /// entries times the price times the multiple; the result is the number
    /// of entries.
    pub fn validate(&self, ticket: &Ticket, game: &Game, play_type: &PlayType, bet_type: &BetType) -> (r: Result<i32, i32>)
        ensures
            r == validate_ssq(ticket.number(), ticket.amount(), play_type@.1, ticket.multiple()),
    {
        let amount = ticket.get_amount();
        let price = play_type.get_price();
        let multiple = ticket.get_multiple();
        let cs = chars_of(ticket.get_number());
        let v = split_at(cs.as_slice(), ';');
        let ghost vs = split_at_char(ticket.number(), ';');
        if v.len() > 5 {
            return Err(ErrCode::CountBtFive.code());
        }
        let count = v.len() as i32;
        let mut i: usize = 0;
        while i < v.len()
            invariant
                views(v@) == vs,
                vs == split_at_char(ticket.number(), ';'),
                vs.len() <= 5,
                i <= v@.len(),
                forall|j: int| 0 <= j < i ==> #[trigger] is_ssq_entry(vs[j]),
            decreases v@.len() - i,
        {
            assert(v@[i as int]@ == vs[i as int]);
            if !check_ssq_entry(v[i].as_slice()) {
                return Err(ErrCode::NumberIsWrong.code());
            }
            i = i + 1;
        }
        let true_amount = count_amount(count, price, multiple);
        if amount as i128 == true_amount {
            Ok(count)
        } else {
            Err(ErrCode::AmountIsWrong.code())
        }
    }
}

/// `count * price * multiple`, computed without overflow.
fn count_amount(count: i32, price: i32, multiple: i32) -> (r: i128)
    ensures
        r == count * price * multiple,
{
    let c = count as i128;
    let p = price as i128;
    let m = multiple as i128;
    assert(-0x4000_0000_0000_0000 <= c * p <= 0x4000_0000_0000_0000) by (nonlinear_arith)
        requires
            -0x8000_0000 <= c < 0x8000_0000,
            -0x8000_0000 <= p < 0x8000_0000,
    ;
    assert(-0x2000_0000_0000_0000_0000_0000 <= (c * p) * m <= 0x2000_0000_0000_0000_0000_0000) by (nonlinear_arith)
        requires
            -0x4000_0000_0000_0000 <= c * p <= 0x4000_0000_0000_0000,
            -0x8000_0000 <= m < 0x8000_0000,
            -0x8000_0000 <= c < 0x8000_0000,
            -0x8000_0000 <= p < 0x8000_0000,
    ;
    c * p * m
}

/// The kind of options of the sports play `p`.
pub open spec fn jc_kind(p: i32) -> JcOption {
    if p == 3 {
        JcOption::Goals
    } else if p == 4 {
        JcOption::Score
    } else if p == 5 {
        JcOption::HalfFull
    } else {
        JcOption::WinDrawLose
    }
}

/// The validation for the game `g`, play type `p` and bet type `b`, with the
/// ticket's number, amount and multiple and the play's price; `None` where
/// no validation exists for them.
pub open spec fn validation(
    g: i32,
    p: i32,
    b: i32,
    number: Seq<char>,
    amount: i32,
    price: i32,
    multiple: i32,
) -> Option<Result<i32, i32>> {
    if g == 100 && p == 10 && b == 10 {
        Some(validate_ssq(number, amount, price, multiple))
    } else if g == 200 && (p == 10 || p == 60) && b == 10 {
        Some(validate_dlt_single(number))
    } else if g == 200 && (p == 10 || p == 60) && b == 20 {
        Some(validate_dlt_multiple(number))
    } else if g == 200 && (p == 10 || p == 60) && b == 30 {
        Some(validate_dlt_banker(number))
    } else if g == 202 && 1 <= p <= 5 && b == 1 {
        Some(validate_single_match(number, jc_kind(p)))
    } else if g == 201 && 1 <= p <= 5 && b == 2 {
        Some(validate_parlay(number, false, jc_kind(p)))
    } else if g == 201 && p == 10 && b == 2 {
        Some(validate_parlay(number, true, JcOption::WinDrawLose))
    } else if g == 203 && p == 1 && b == 1 {
        Some(validate_pls_single(number))
    } else if g == 203 && p == 1 && b == 2 {
        Some(validate_pls_multiple(number))
    } else {
        None
    }
}

/// A parlay of the ticket's play can be counted (see `parlay_countable`).
pub open spec fn countable(g: i32, p: i32, b: i32, number: Seq<char>) -> bool {
    &&& (g == 201 && 1 <= p <= 5 && b == 2) ==> parlay_countable(number, false, jc_kind(p))
    &&& (g == 201 && p == 10 && b == 2) ==> parlay_countable(number, true, JcOption::WinDrawLose)
}

/// The result of validating `t` against the games `games`: the game, play
/// type and bet type must exist, a validation must exist for them, it must
/// pass, and the ticket's amount and bet count must match the bets found.
pub open spec fn validate_ticket(games: Map<i32, GameView>, t: Ticket) -> Result<i32, i32> {
    if !games.contains_key(t.game_id()) {
        Err(err_num(ErrCode::GameNotExists))
    } else if !games[t.game_id()].3.contains_key(t.play_type()) {
        Err(err_num(ErrCode::PlayTypeNotExists))
    } else if !games[t.game_id()].3[t.play_type()].3.contains_key(t.bet_type()) {
        Err(err_num(ErrCode::BetTypeNotExists))
    } else {
        let pv = games[t.game_id()].3[t.play_type()];
        let bv = pv.3[t.bet_type()];
        match validation(t.game_id(), pv.0, bv.0, t.number(), t.amount(), pv.1, t.multiple()) {
            None => Err(err_num(ErrCode::GameNotExists)),
            Some(Err(e)) => Err(e),
            Some(Ok(c)) => if t.amount() == c * pv.1 * t.multiple() && t.icount() == c {
                Ok(c)
            } else {
                Err(err_num(ErrCode::AmountIsWrong))
            },
        }
    }
}

/// The ticket can be validated without overflow: its number is shorter than
/// `i32::MAX` and a parlay of it can be counted.
pub open spec fn ticket_countable(games: Map<i32, GameView>, t: Ticket) -> bool {
    &&& t.number().len() < i32::MAX
    &&& (games.contains_key(t.game_id()) && games[t.game_id()].3.contains_key(t.play_type())
        && games[t.game_id()].3[t.play_type()].3.contains_key(t.bet_type())) ==> countable(
        t.game_id(),
        games[t.game_id()].3[t.play_type()].0,
        games[t.game_id()].3[t.play_type()].3[t.bet_type()].0,
        t.number(),
    )
}

/// The validations of the system, one for each game, play type and bet type
/// that can be bet on.
pub struct ValidateFactory {
    games: GameFactory,
}

impl View for ValidateFactory {
    type V = Map<i32, GameView>;

    closed spec fn view(&self) -> Map<i32, GameView> {
        self.games@
    }
}

impl ValidateFactory {
    /// The validations over the games of the system.
    pub fn new() -> (f: ValidateFactory)
        ensures
            f@ == standard_games(),
    {
        ValidateFactory { games: GameFactory::new() }
    }

    /// Validates `ticket`: finds its game, play type and bet type, runs the
    /// validation for them and checks the claimed amount and bet count
    /// against the bets found; the result is the number of bets.
    pub fn validate(&self, ticket: &Ticket) -> (r: Result<i32, i32>)
        requires
            ticket_countable(self@, *ticket),
        ensures
            r == validate_ticket(self@, *ticket),
    {
        let game_id = ticket.get_game_id();
        let game = match self.games.get_game_by_id(game_id) {
            Ok(g) => g,
            Err(e) => return Err(e),
        };
        let play_type = match game.get_play_type(ticket.get_play_type()) {
            Ok(p) => p,
            Err(e) => return Err(e),
        };
        let bet_type = match play_type.get_bet_type(ticket.get_bet_type()) {
            Ok(b) => b,
            Err(e) => return Err(e),
        };
        let p = play_type.id;
        let b = bet_type.get_id();
        assert(p == play_type@.0 && b == bet_type@.0);
        let rst = if game_id == 100 && p == 10 && b == 10 {
            ValidateSsq1010.validate(ticket, game, play_type, bet_type)
        } else if game_id == 200 && (p == 10 || p == 60) && b == 10 {
            ValidateDlt1010.validate(ticket, game, play_type, bet_type)
        } else if game_id == 200 && (p == 10 || p == 60) && b == 20 {
            ValidateDlt1020.validate(ticket, game, play_type, bet_type)
        } else if game_id == 200 && (p == 10 || p == 60) && b == 30 {
            ValidateDlt1030.validate(ticket, game, play_type, bet_type)
        } else if game_id == 202 && b == 1 && p == 1 {
            ValidateJcd0101.validate(ticket, game, play_type, bet_type)
        } else if game_id == 202 && b == 1 && p == 2 {
            ValidateJcd0201.validate(ticket, game, play_type, bet_type)
        } else if game_id == 202 && b == 1 && p == 3 {
            ValidateJcd0301.validate(ticket, game, play_type, bet_type)
        } else if game_id == 202 && b == 1 && p == 4 {
            ValidateJcd0401.validate(ticket, game, play_type, bet_type)
        } else if game_id == 202 && b == 1 && p == 5 {
            ValidateJcd0501.validate(ticket, game, play_type, bet_type)
        } else if game_id == 201 && b == 2 && p == 1 {
            ValidateJcc0102.validate(ticket, game, play_type, bet_type)
        } else if game_id == 201 && b == 2 && p == 2 {
            ValidateJcc0202.validate(ticket, game, play_type, bet_type)
        } else if game_id == 201 && b == 2 && p == 3 {
            ValidateJcc0302.validate(ticket, game, play_type, bet_type)
        } else if game_id == 201 && b == 2 && p == 4 {
            ValidateJcc0402.validate(ticket, game, play_type, bet_type)
        } else if game_id == 201 && b == 2 && p == 5 {
            ValidateJcc0502.validate(ticket, game, play_type, bet_type)
        } else if game_id == 201 && b == 2 && p == 10 {
            ValidateJcc1002.validate(ticket, game, play_type, bet_type)
        } else if game_id == 203 && p == 1 && b == 1 {
            ValidatePls0101.validate(ticket, game, play_type, bet_type)
        } else if game_id == 203 && p == 1 && b == 2 {
            ValidatePls0102.validate(ticket, game, play_type, bet_type)
        } else {
            return Err(ErrCode::GameNotExists.code());
        };
        let count = match rst {
            Ok(c) => c,
            Err(e) => return Err(e),
        };
        let true_amount = count_amount(count, play_type.get_price(), ticket.get_multiple());
        if ticket.get_amount() as i128 == true_amount && ticket.get_icount() == count {
            Ok(count)
        } else {
            Err(ErrCode::AmountIsWrong.code())
        }
    }
}

/// A ticket that passes validation claims exactly the bets found, and its
/// amount is that number of bets times the play's price times the multiple.
pub proof fn lemma_validated_amount(games: Map<i32, GameView>, t: Ticket, c: i32)
    requires
        validate_ticket(games, t) == Ok::<i32, i32>(c),
    ensures
        games.contains_key(t.game_id()),
        games[t.game_id()].3.contains_key(t.play_type()),
        t.icount() == c,
        t.amount() == c * games[t.game_id()].3[t.play_type()].1 * t.multiple(),
{
}

} // verus!
