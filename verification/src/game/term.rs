use vstd::prelude::*;
use crate::game::draw::print::{find_exec, find_from};
use crate::game::draw::sports::{int_text, int_text_exec};
use crate::text::chars_of;

verus! {

/// Whether a ticket still printing when the sale of the term `term_code`
/// ends is refunded: a parlay ticket of the sports games (201 and 301) only
/// where the decimal text of the term's code occurs in its list of term
/// codes; a ticket of any other game always.
pub open spec fn refunded_at_end(game_id: i64, term_code: i64, term_code_list: Seq<char>) -> bool {
    (game_id == 201 || game_id == 301) ==> find_from(term_code_list, int_text(term_code as int), 0) is Some
}

/// Whether the ticket of the game `game_id` with the term codes
/// `term_code_list` is refunded when the sale of the term `term_code` ends.
pub fn needs_refund_at_end(game_id: i64, term_code: i64, term_code_list: &str) -> (r: bool)
    ensures
        r == refunded_at_end(game_id, term_code, term_code_list@),
{
    if game_id == 201 || game_id == 301 {
        let list = chars_of(term_code_list);
        let code = int_text_exec(term_code);
        find_exec(list.as_slice(), code.as_slice()).is_some()
    } else {
        true
    }
}

} // verus!
