pub mod print;
pub mod settle;
pub mod sports;
pub mod dlt;

pub use self::dlt::{DrawDlt1010, DrawDlt1020, DrawDlt1030};
pub use self::print::{
    DrawJcc0102, DrawJcc0202, DrawJcc0302, DrawJcc0402, DrawJcc0502, DrawJcc1002, DrawJcd0101, DrawJcd0301,
    DrawJcd0401, DrawJcd0501, DrawJcl0102, DrawJcl0202, DrawJcl0302, DrawJcl0402, DrawJcl1002,
};
pub use self::settle::{DrawSummary, LevelBonus, LvDetail};
pub use self::sports::DrawJcd0201;

use vstd::prelude::*;
use std::collections::BTreeMap;
use crate::cons::{err_num, ErrCode};
use crate::game::base::{standard_games, GameFactory, GameView, Print, Ticket};
use crate::game::draw::dlt::{
    awards_of, banker_hits, banker_readable, multiple_hits, multiple_readable, single_awards, single_readable,
    zone_counts, zone_counts_fit,
};
use crate::game::draw::settle::{tally, tally_fits, Tally};
use crate::text::split_at_char;
use crate::game::draw::print::{parlay_print, single_match_print, RateLabels};


verus! {

/// The big lottery's play types (standard and additional) and bet types
/// (single, multiple, banker) that this library draws.
pub open spec fn is_lottery_draw(g: i32, p: i32, b: i32) -> bool {
    g == 200 && (p == 10 || p == 60) && (b == 10 || b == 20 || b == 30)
}

/// The ticket can be drawn: a lottery ticket whose number can be read and
/// whose winnings fit their integer types.
pub open spec fn lottery_drawable(b: i32, p: i32, number: Seq<char>, draw: Seq<i32>, gl: Map<i64, LevelBonus>) -> bool {
    let extra = p == 60;
    if b == 10 {
        single_readable(number, draw) && tally_fits(gl, single_awards(split_at_char(number, ';'), draw, extra))
    } else if b == 20 {
        &&& multiple_readable(number, draw)
        &&& zone_counts_fit(multiple_hits(number, draw))
        &&& tally_fits(gl, awards_of(zone_counts(multiple_hits(number, draw)), extra))
    } else {
        &&& banker_readable(number, draw)
        &&& zone_counts_fit(banker_hits(number, draw))
        &&& tally_fits(gl, awards_of(zone_counts(banker_hits(number, draw)), extra))
    }
}

/// The winnings of a lottery ticket of bet type `b` and play type `p`.
pub open spec fn lottery_tally(b: i32, p: i32, number: Seq<char>, draw: Seq<i32>, gl: Map<i64, LevelBonus>) -> Tally {
    let extra = p == 60;
    if b == 10 {
        tally(gl, single_awards(split_at_char(number, ';'), draw, extra))
    } else if b == 20 {
        tally(gl, awards_of(zone_counts(multiple_hits(number, draw)), extra))
    } else {
        tally(gl, awards_of(zone_counts(banker_hits(number, draw)), extra))
    }
}

/// The ticket's game, play type and bet type exist.
pub open spec fn ticket_known(games: Map<i32, GameView>, t: Ticket) -> bool {
    &&& games.contains_key(t.game_id())
    &&& games[t.game_id()].3.contains_key(t.play_type())
    &&& games[t.game_id()].3[t.play_type()].3.contains_key(t.bet_type())
}

/// A ticket whose game, play type and bet type exist is a drawable lottery
/// ticket.
pub open spec fn ticket_drawable(games: Map<i32, GameView>, t: Ticket, draw: Seq<i32>, gl: Map<i64, LevelBonus>) -> bool {
    ticket_known(games, t) ==> {
        let pv = games[t.game_id()].3[t.play_type()];
        let bv = pv.3[t.bet_type()];
        &&& is_lottery_draw(t.game_id(), pv.0, bv.0)
        &&& lottery_drawable(bv.0, pv.0, t.number(), draw, gl)
    }
}

/// The draw of lottery tickets, by game, play type and bet type.
pub struct DrawFactory {
    games: GameFactory,
}

impl View for DrawFactory {
    type V = Map<i32, GameView>;

    closed spec fn view(&self) -> Map<i32, GameView> {
        self.games@
    }
}

impl DrawFactory {
    /// The draws over the games of the system.
    pub fn new() -> (f: DrawFactory)
        ensures
            f@ == standard_games(),
    {
        DrawFactory { games: GameFactory::new() }
    }

    /// The winnings of `ticket` for the draw `draw_number` and the prizes
    /// per level `gl`; the error of the missing game, play type or bet type.
    pub fn draw(&self, ticket: &Ticket, draw_number: &Vec<i32>, gl: &BTreeMap<i64, LevelBonus>) -> (r: Result<DrawSummary, i32>)
        requires
            ticket_drawable(self@, *ticket, draw_number@, gl@),
        ensures
            !self@.contains_key(ticket.game_id()) ==> r == Err::<DrawSummary, i32>(err_num(ErrCode::GameNotExists)),
            self@.contains_key(ticket.game_id()) && !self@[ticket.game_id()].3.contains_key(ticket.play_type())
                ==> r == Err::<DrawSummary, i32>(err_num(ErrCode::PlayTypeNotExists)),
            self@.contains_key(ticket.game_id()) && self@[ticket.game_id()].3.contains_key(ticket.play_type())
                && !self@[ticket.game_id()].3[ticket.play_type()].3.contains_key(ticket.bet_type())
                ==> r == Err::<DrawSummary, i32>(err_num(ErrCode::BetTypeNotExists)),
            ticket_known(self@, *ticket) ==> (r matches Ok(s) && s@ == lottery_tally(
                self@[ticket.game_id()].3[ticket.play_type()].3[ticket.bet_type()].0,
                self@[ticket.game_id()].3[ticket.play_type()].0,
                ticket.number(),
                draw_number@,
                gl@,
            )),
    {
        let game = match self.games.get_game_by_id(ticket.get_game_id()) {
            Ok(g) => g,
            Err(e) => return Err(e),
        };
        let play_type = match game.get_play_type(ticket.get_play_type()) {
            Ok(p) => p,
            Err(e) => return Err(e),
        };
        let bet_type = match play_type.get_bet_type(ticket.get_bet_type()) {
            Ok(b) => b,
            Err(e) => return Err(e),
        };
        let b = bet_type.get_id();
        if b == 10 {
            DrawDlt1010.draw(ticket, draw_number, gl, game, play_type, bet_type)
        } else if b == 20 {
            DrawDlt1020.draw(ticket, draw_number, gl, game, play_type, bet_type)
        } else {
            DrawDlt1030.draw(ticket, draw_number, gl, game, play_type, bet_type)
        }
    }
}

/// The print number of a sports ticket of the game `g`, play type `p` and
/// bet type `b`; `None` where the system prints no such ticket.
pub open spec fn sports_print(g: i64, p: i32, b: i32, number: Seq<char>, stub: Seq<char>) -> Option<Option<Seq<char>>> {
    if g == 202 && b == 1 && (p == 1 || p == 2) {
        Some(single_match_print(RateLabels::WinDrawLose, number, stub))
    } else if g == 202 && b == 1 && p == 3 {
        Some(single_match_print(RateLabels::Goals, number, stub))
    } else if g == 202 && b == 1 && p == 4 {
        Some(single_match_print(RateLabels::Score, number, stub))
    } else if g == 202 && b == 1 && p == 5 {
        Some(single_match_print(RateLabels::HalfFull, number, stub))
    } else if g == 201 && b == 2 && 1 <= p <= 5 {
        Some(parlay_print(number, seq!['0', ('0' as u32 + p as u32) as char], stub, false))
    } else if g == 201 && b == 2 && p == 10 {
        Some(parlay_print(number, seq!['1', '0'], stub, false))
    } else if g == 301 && (b == 1 || b == 2) && 1 <= p <= 4 {
        Some(parlay_print(number, seq!['0', ('0' as u32 + p as u32) as char], stub, true))
    } else if g == 301 && b == 2 && p == 10 {
        Some(parlay_print(number, seq!['1', '0'], stub, true))
    } else {
        None
    }
}

/// The game, play type and bet type of the ids exist.
pub open spec fn ids_known(games: Map<i32, GameView>, g: i64, p: i64, b: i64) -> bool {
    &&& games.contains_key(g as i32)
    &&& games[g as i32].3.contains_key(p as i32)
    &&& games[g as i32].3[p as i32].3.contains_key(b as i32)
}

/// Where the ids exist, they name a sports ticket whose print number can be
/// made from the number and the stub.
pub open spec fn printable(games: Map<i32, GameView>, g: i64, p: i64, b: i64, number: Seq<char>, stub: Seq<char>) -> bool {
    ids_known(games, g, p, b) ==> {
        let pv = games[g as i32].3[p as i32];
        sports_print(g, pv.0, pv.3[b as i32].0, number, stub) matches Some(Some(_))
    }
}

/// The print numbers of sports tickets, by game, play type and bet type.
pub struct PrintFactory {
    games: GameFactory,
}

impl View for PrintFactory {
    type V = Map<i32, GameView>;

    closed spec fn view(&self) -> Map<i32, GameView> {
        self.games@
    }
}

impl PrintFactory {
    /// The printers over the games of the system.
    pub fn new() -> (f: PrintFactory)
        ensures
            f@ == standard_games(),
    {
        PrintFactory { games: GameFactory::new() }
    }

    /// The print number of a ticket: its number with the rates read from the
    /// stub that the terminal printed; the error of the missing game, play
    /// type or bet type.
    pub fn get_print_number(
        &self,
        game_id: i64,
        play_type_id: i64,
        bet_type_id: i64,
        number: &str,
        stub: &str,
    ) -> (r: Result<String, i32>)
        requires
            printable(self@, game_id, play_type_id, bet_type_id, number@, stub@),
        ensures
            !self@.contains_key(game_id as i32) ==> r == Err::<String, i32>(err_num(ErrCode::GameNotExists)),
            self@.contains_key(game_id as i32) && !self@[game_id as i32].3.contains_key(play_type_id as i32)
                ==> r == Err::<String, i32>(err_num(ErrCode::PlayTypeNotExists)),
            self@.contains_key(game_id as i32) && self@[game_id as i32].3.contains_key(play_type_id as i32)
                && !self@[game_id as i32].3[play_type_id as i32].3.contains_key(bet_type_id as i32)
                ==> r == Err::<String, i32>(err_num(ErrCode::BetTypeNotExists)),
            ids_known(self@, game_id, play_type_id, bet_type_id) ==> (r matches Ok(s) && Some(Some(s@))
                == sports_print(
                game_id,
                self@[game_id as i32].3[play_type_id as i32].0,
                self@[game_id as i32].3[play_type_id as i32].3[bet_type_id as i32].0,
                number@,
                stub@,
            )),
    {
        let game = match self.games.get_game_by_id(game_id as i32) {
            Ok(g) => g,
            Err(e) => return Err(e),
        };
        let play_type = match game.get_play_type(play_type_id as i32) {
            Ok(p) => p,
            Err(e) => return Err(e),
        };
        let bet_type = match play_type.get_bet_type(bet_type_id as i32) {
            Ok(b) => b,
            Err(e) => return Err(e),
        };
        let p = play_type.id;
        let b = bet_type.get_id();
        if game_id == 202 && b == 1 && (p == 1 || p == 2) {
            Ok(DrawJcd0101.get_print_number(number, stub))
        } else if game_id == 202 && b == 1 && p == 3 {
            Ok(DrawJcd0301.get_print_number(number, stub))
        } else if game_id == 202 && b == 1 && p == 4 {
            Ok(DrawJcd0401.get_print_number(number, stub))
        } else if game_id == 202 && b == 1 && p == 5 {
            Ok(DrawJcd0501.get_print_number(number, stub))
        } else if game_id == 201 && b == 2 && p == 1 {
            Ok(DrawJcc0102.get_print_number(number, stub))
        } else if game_id == 201 && b == 2 && p == 2 {
            Ok(DrawJcc0202.get_print_number(number, stub))
        } else if game_id == 201 && b == 2 && p == 3 {
            Ok(DrawJcc0302.get_print_number(number, stub))
        } else if game_id == 201 && b == 2 && p == 4 {
            Ok(DrawJcc0402.get_print_number(number, stub))
        } else if game_id == 201 && b == 2 && p == 5 {
            Ok(DrawJcc0502.get_print_number(number, stub))
        } else if game_id == 201 {
            Ok(DrawJcc1002.get_print_number(number, stub))
        } else if p == 1 {
            Ok(DrawJcl0102.get_print_number(number, stub))
        } else if p == 2 {
            Ok(DrawJcl0202.get_print_number(number, stub))
        } else if p == 3 {
            Ok(DrawJcl0302.get_print_number(number, stub))
        } else if p == 4 {
            Ok(DrawJcl0402.get_print_number(number, stub))
        } else {
            Ok(DrawJcl1002.get_print_number(number, stub))
        }
    }
}

} // verus!
