use vstd::prelude::*;
use crate::game::validate::jc::{option_allowed, JcOption};
use crate::game::draw::print::{DrawJcd0101, DrawJcd0301, DrawJcd0401, DrawJcd0501};
use crate::text::{digits_value, int_text_value, push_chars, str_eq, string_of, unsigned_part};

verus! {

/// The character of the decimal digit `d`.
pub open spec fn digit_char(d: int) -> char {
    ('0' as int + d) as char
}

/// The decimal text of `n`.
pub open spec fn decimal(n: nat) -> Seq<char>
    decreases n,
{
    if n < 10 {
        seq![digit_char(n as int)]
    } else {
        decimal(n / 10).push(digit_char((n % 10) as int))
    }
}

/// The decimal text of `x`, with `-` before a negative number, as `{}`
/// formats an integer.
pub open spec fn int_text(x: int) -> Seq<char> {
    if x < 0 {
        seq!['-'] + decimal((-x) as nat)
    } else {
        decimal(x as nat)
    }
}

fn decimal_exec(n: u64) -> (v: Vec<char>)
    ensures
        v@ == decimal(n as nat),
    decreases n,
{
    let d = n % 10;
    let c = if d == 0 {
        '0'
    } else if d == 1 {
        '1'
    } else if d == 2 {
        '2'
    } else if d == 3 {
        '3'
    } else if d == 4 {
        '4'
    } else if d == 5 {
        '5'
    } else if d == 6 {
        '6'
    } else if d == 7 {
        '7'
    } else if d == 8 {
        '8'
    } else {
        '9'
    };
    assert(c == digit_char((n % 10) as int));
    if n < 10 {
        let mut v: Vec<char> = Vec::new();
        v.push(c);
        assert(v@ =~= seq![digit_char(n as int)]);
        v
    } else {
        let mut v = decimal_exec(n / 10);
        v.push(c);
        v
    }
}

pub(crate) fn int_text_exec(x: i64) -> (v: Vec<char>)
    ensures
        v@ == int_text(x as int),
{
    if x < 0 {
        let m: u64 = if x == i64::MIN {
            0x8000_0000_0000_0000
        } else {
            (-x) as u64
        };
        let mut v: Vec<char> = Vec::new();
        v.push('-');
        let d = decimal_exec(m);
        push_chars(&mut v, d.as_slice());
        assert(v@ =~= seq!['-'] + decimal((-x) as nat));
        v
    } else {
        decimal_exec(x as u64)
    }
}

/// `x / 10` rounded toward zero, as integer division does.
pub open spec fn tenth(x: int) -> int {
    if x >= 0 {
        x / 10
    } else {
        -((-x) / 10)
    }
}

/// The result of a match from the home side: `3` for a win, `1` for a
/// draw, `0` for a loss.
pub open spec fn result_code(home: int, away: int) -> Seq<char> {
    if home > away {
        seq!['3']
    } else if home == away {
        seq!['1']
    } else {
        seq!['0']
    }
}

fn result_code_exec(home: i64, away: i64) -> (v: Vec<char>)
    ensures
        v@ == result_code(home as int, away as int),
{
    let c = if home > away {
        '3'
    } else if home == away {
        '1'
    } else {
        '0'
    };
    let mut v: Vec<char> = Vec::new();
    v.push(c);
    assert(v@ =~= result_code(home as int, away as int));
    v
}

/// The score option of a final score in tenths of goals: `90`, `99` or `09`
/// for another win, draw or loss, the two goal counts otherwise.
pub open spec fn score_option(home: int, away: int) -> Seq<char> {
    if home > away && (home > 50 || away > 20) {
        seq!['9', '0']
    } else if home < away && (home > 20 || away > 50) {
        seq!['0', '9']
    } else if home == away && home > 30 {
        seq!['9', '9']
    } else {
        int_text(tenth(home)) + int_text(tenth(away))
    }
}

/// The option that wins a single-match bet of the kind `kind` for the
/// match result `d`: home and away scores in tenths of goals, the
/// handicap, then the half-time scores.
pub open spec fn winning_option(kind: JcOption, handicap: bool, d: Seq<i32>) -> Seq<char> {
    match kind {
        JcOption::WinDrawLose => if handicap {
            result_code(d[0] + d[2], d[1] as int)
        } else {
            result_code(d[0] as int, d[1] as int)
        },
        JcOption::Goals => {
            let k = tenth(d[0] + d[1]);
            int_text(if k > 7 { 7 } else { k })
        },
        JcOption::Score => score_option(d[0] as int, d[1] as int),
        JcOption::HalfFull => result_code(d[3] as int, d[4] as int) + result_code(d[0] as int, d[1] as int),
    }
}

/// The result `d` holds what the kind of bet reads: two scores, the
/// handicap for a handicap bet, the half-time scores for a half-time bet.
pub open spec fn result_readable(kind: JcOption, handicap: bool, d: Seq<i32>) -> bool {
    &&& d.len() >= 2
    &&& (kind == JcOption::WinDrawLose && handicap) ==> d.len() >= 3
    &&& kind == JcOption::HalfFull ==> d.len() >= 5
}

/// The winning option of a single-match bet of the kind `kind` (with the
/// handicap where `handicap`) for the match result `draw_number`.
fn get_winning_option(kind: JcOption, handicap: bool, draw_number: &Vec<i32>) -> (r: String)
    requires
        result_readable(kind, handicap, draw_number@),
    ensures
        r@ == winning_option(kind, handicap, draw_number@),
{
    let d0 = draw_number[0] as i64;
    let d1 = draw_number[1] as i64;
    let v = match kind {
        JcOption::WinDrawLose => {
            if handicap {
                result_code_exec(d0 + draw_number[2] as i64, d1)
            } else {
                result_code_exec(d0, d1)
            }
        },
        JcOption::Goals => {
            let s = d0 + d1;
            let k = s / 10;
            assert(k == tenth(s as int));
            int_text_exec(if k > 7 { 7 } else { k })
        },
        JcOption::Score => {
            if d0 > d1 && (d0 > 50 || d1 > 20) {
                let v = vec!['9', '0'];
                assert(v@ =~= seq!['9', '0']);
                v
            } else if d0 < d1 && (d0 > 20 || d1 > 50) {
                let v = vec!['0', '9'];
                assert(v@ =~= seq!['0', '9']);
                v
            } else if d0 == d1 && d0 > 30 {
                let v = vec!['9', '9'];
                assert(v@ =~= seq!['9', '9']);
                v
            } else {
                let q0 = d0 / 10;
                let q1 = d1 / 10;
                assert(q0 == tenth(d0 as int) && q1 == tenth(d1 as int));
                let mut v = int_text_exec(q0);
                let w = int_text_exec(q1);
                push_chars(&mut v, w.as_slice());
                v
            }
        },
        JcOption::HalfFull => {
            let mut v = result_code_exec(draw_number[3] as i64, draw_number[4] as i64);
            let w = result_code_exec(d0, d1);
            push_chars(&mut v, w.as_slice());
            v
        },
    };
    string_of(&v)
}

/// The basketball margin option of a final score: `01` to `06` for a home
/// win by 1-5, 6-10, 11-15, 16-20, 21-25 or 26 and more points, `11` to `16`
/// likewise for an away win (a tie counts as an away win by up to 5).
pub open spec fn margin_option(home: int, away: int) -> Seq<char> {
    let gap = home - away;
    if gap > 0 {
        if gap <= 5 {
            seq!['0', '1']
        } else if gap <= 10 {
            seq!['0', '2']
        } else if gap <= 15 {
            seq!['0', '3']
        } else if gap <= 20 {
            seq!['0', '4']
        } else if gap <= 25 {
            seq!['0', '5']
        } else {
            seq!['0', '6']
        }
    } else {
        if gap >= -5 {
            seq!['1', '1']
        } else if gap >= -10 {
            seq!['1', '2']
        } else if gap >= -15 {
            seq!['1', '3']
        } else if gap >= -20 {
            seq!['1', '4']
        } else if gap >= -25 {
            seq!['1', '5']
        } else {
            seq!['1', '6']
        }
    }
}

/// The winning basketball margin option for the home score `master` and the
/// away score `guest`.
pub fn get_margin_option(master: i64, guest: i64) -> (r: String)
    requires
        i64::MIN <= master - guest <= i64::MAX,
    ensures
        r@ == margin_option(master as int, guest as int),
{
    let gap = master - guest;
    let (a, b) = if gap > 0 {
        if gap <= 5 {
            ('0', '1')
        } else if gap <= 10 {
            ('0', '2')
        } else if gap <= 15 {
            ('0', '3')
        } else if gap <= 20 {
            ('0', '4')
        } else if gap <= 25 {
            ('0', '5')
        } else {
            ('0', '6')
        }
    } else {
        if gap >= -5 {
            ('1', '1')
        } else if gap >= -10 {
            ('1', '2')
        } else if gap >= -15 {
            ('1', '3')
        } else if gap >= -20 {
            ('1', '4')
        } else if gap >= -25 {
            ('1', '5')
        } else {
            ('1', '6')
        }
    };
    let v = vec![a, b];
    assert(v@ =~= margin_option(master as int, guest as int));
    string_of(&v)
}

/// Whether the basketball option `select` of the play `play` wins on the
/// final score `master` (home) to `guest` (away), where `line` is the
/// option's handicap (play `02`) or preset total (play `04`) in tenths of a
/// point: `01` wins with `3` on a home win and `0` otherwise; `02` with `3`
/// where the home score plus the handicap is above the away score, and with
/// any other option where it is below; `03` with the margin option of the
/// score; `04` with `1` where the total is above the line, and with any other
/// option where it is below. No option of another play wins.
pub open spec fn basketball_wins(play: Seq<char>, select: Seq<char>, master: int, guest: int, line: int) -> bool {
    if play == seq!['0', '1'] {
        select == (if master > guest { seq!['3'] } else { seq!['0'] })
    } else if play == seq!['0', '2'] {
        if select == seq!['3'] {
            master * 10 + line > guest * 10
        } else {
            master * 10 + line < guest * 10
        }
    } else if play == seq!['0', '3'] {
        select == margin_option(master, guest)
    } else if play == seq!['0', '4'] {
        if select == seq!['1'] {
            master * 10 + guest * 10 > line
        } else {
            master * 10 + guest * 10 < line
        }
    } else {
        false
    }
}

/// Whether the basketball option `select` of the play `play` wins on the
/// final score `master` to `guest`, with the handicap or preset total
/// `line_tenths` in tenths of a point.
pub fn basketball_option_wins(play: &str, select: &str, master: i64, guest: i64, line_tenths: i64) -> (r: bool)
    requires
        i64::MIN <= master * 10 + guest * 10 <= i64::MAX,
        i64::MIN <= master * 10 + line_tenths <= i64::MAX,
        i64::MIN <= master * 10 <= i64::MAX,
        i64::MIN <= guest * 10 <= i64::MAX,
        i64::MIN <= master - guest <= i64::MAX,
    ensures
        r == basketball_wins(play@, select@, master as int, guest as int, line_tenths as int),
{
    proof {
        reveal_strlit("01");
        reveal_strlit("02");
        reveal_strlit("03");
        reveal_strlit("04");
        reveal_strlit("3");
        reveal_strlit("0");
        reveal_strlit("1");
    }
    assert("01"@ =~= seq!['0', '1']);
    assert("02"@ =~= seq!['0', '2']);
    assert("03"@ =~= seq!['0', '3']);
    assert("04"@ =~= seq!['0', '4']);
    assert("3"@ =~= seq!['3']);
    assert("0"@ =~= seq!['0']);
    assert("1"@ =~= seq!['1']);
    if str_eq(play, "01") {
        if master > guest {
            str_eq(select, "3")
        } else {
            str_eq(select, "0")
        }
    } else if str_eq(play, "02") {
        if str_eq(select, "3") {
            master * 10 + line_tenths > guest * 10
        } else {
            master * 10 + line_tenths < guest * 10
        }
    } else if str_eq(play, "03") {
        let m = get_margin_option(master, guest);
        str_eq(m.as_str(), select)
    } else if str_eq(play, "04") {
        if str_eq(select, "1") {
            master * 10 + guest * 10 > line_tenths
        } else {
            master * 10 + guest * 10 < line_tenths
        }
    } else {
        false
    }
}

/// A win/draw/loss bet is decided by the home score against the away score,
/// and a handicap bet by the home score plus the handicap against the away
/// score: `3` exactly when the home side is ahead, `1` exactly when level,
/// `0` exactly when behind.
pub proof fn lemma_result_options(d: Seq<i32>)
    requires
        d.len() >= 3,
    ensures
        (winning_option(JcOption::WinDrawLose, false, d) == seq!['3']) <==> d[0] > d[1],
        (winning_option(JcOption::WinDrawLose, false, d) == seq!['1']) <==> d[0] == d[1],
        (winning_option(JcOption::WinDrawLose, false, d) == seq!['0']) <==> d[0] < d[1],
        (winning_option(JcOption::WinDrawLose, true, d) == seq!['3']) <==> d[0] + d[2] > d[1],
        (winning_option(JcOption::WinDrawLose, true, d) == seq!['1']) <==> d[0] + d[2] == d[1],
        (winning_option(JcOption::WinDrawLose, true, d) == seq!['0']) <==> d[0] + d[2] < d[1],
{
    assert(seq!['3'] != seq!['1'] && seq!['3'] != seq!['0'] && seq!['1'] != seq!['0']) by {
        assert(seq!['3'][0] != seq!['1'][0]);
        assert(seq!['3'][0] != seq!['0'][0]);
        assert(seq!['1'][0] != seq!['0'][0]);
    }
}

/// The band of a winning margin of `g` points: 1 for 1 to 5, 2 for 6 to 10,
/// and so on up to 6 for more than 25 (a margin of 0 counts in band 1).
pub open spec fn margin_band(g: int) -> int {
    if g <= 5 {
        1
    } else if g > 25 {
        6
    } else {
        (g + 4) / 5
    }
}

/// The margin option names the side and the band of the margin: `0` and the
/// band for a home win, `1` and the band for an away win or a tie, the band
/// being `(g + 4) / 5` for a margin `g` from 1 to 25 and 6 above 25.
pub proof fn lemma_margin_option_bands(home: int, away: int)
    ensures
        home > away ==> margin_option(home, away) == seq!['0', digit_char(margin_band(home - away))],
        home <= away ==> margin_option(home, away) == seq!['1', digit_char(margin_band(away - home))],
        1 <= margin_band(home - away) <= 6,
{
    let g = home - away;
    if g > 0 {
        if g <= 5 {
        } else if g <= 10 {
            assert((g + 4) / 5 == 2);
        } else if g <= 15 {
            assert((g + 4) / 5 == 3);
        } else if g <= 20 {
            assert((g + 4) / 5 == 4);
        } else if g <= 25 {
            assert((g + 4) / 5 == 5);
        }
    } else {
        let h = -g;
        if h <= 5 {
        } else if h <= 10 {
            assert((h + 4) / 5 == 2);
        } else if h <= 15 {
            assert((h + 4) / 5 == 3);
        } else if h <= 20 {
            assert((h + 4) / 5 == 4);
        } else if h <= 25 {
            assert((h + 4) / 5 == 5);
        }
    }
    if g > 5 && g <= 25 {
        assert(1 <= (g + 4) / 5 <= 6);
    }
}

proof fn lemma_small_int_text(k: int)
    requires
        0 <= k <= 9,
    ensures
        int_text(k) == seq![digit_char(k)],
{
    assert(decimal(k as nat) == seq![digit_char(k)]);
}

/// Every final score (in tenths of goals, not negative) wins with a score
/// option that can be bet on: no result is left without a winning option.
pub proof fn lemma_score_option_allowed(home: int, away: int)
    requires
        0 <= home,
        0 <= away,
    ensures
        option_allowed(JcOption::Score, score_option(home, away)),
{
    let th = tenth(home);
    let ta = tenth(away);
    if home > away && (home > 50 || away > 20) {
    } else if home < away && (home > 20 || away > 50) {
    } else if home == away && home > 30 {
    } else {
        assert(0 <= th <= 5);
        assert(0 <= ta <= 5);
        lemma_small_int_text(th);
        lemma_small_int_text(ta);
        let p = seq![digit_char(th)] + seq![digit_char(ta)];
        assert(score_option(home, away) == p);
        assert(p.len() == 2 && p[0] == digit_char(th) && p[1] == digit_char(ta));
        if home > away {
            assert(ta <= 2 && th >= ta);
        } else if home < away {
            assert(th <= 2 && th <= ta);
        } else {
            assert(th == ta && th <= 3);
        }
        assert(th == 0 || th == 1 || th == 2 || th == 3 || th == 4 || th == 5);
        assert(ta == 0 || ta == 1 || ta == 2 || ta == 3 || ta == 4 || ta == 5);
    }
}

/// Every score option that can be bet on is the winning option of some final
/// score: the options and the results match one for one.
pub proof fn lemma_score_option_reached(p: Seq<char>)
    requires
        option_allowed(JcOption::Score, p),
    ensures
        exists|home: int, away: int| 0 <= home && 0 <= away && #[trigger] score_option(home, away) == p,
{
    let a = p[0];
    let b = p[1];
    if a == '9' && b == '0' {
        assert(score_option(60, 0) =~= p);
    } else if a == '9' && b == '9' {
        assert(score_option(40, 40) =~= p);
    } else if a == '0' && b == '9' {
        assert(score_option(0, 60) =~= p);
    } else {
        let h = digit_value_of(a);
        let w = digit_value_of(b);
        assert(0 <= h <= 5 && 0 <= w <= 5);
        lemma_small_int_text(h);
        lemma_small_int_text(w);
        assert(tenth(h * 10) == h);
        assert(tenth(w * 10) == w);
        assert(digit_char(h) == a && digit_char(w) == b);
        assert(score_option(h * 10, w * 10) =~= p);
    }
}

spec fn digit_value_of(c: char) -> int {
    c as int - '0' as int
}

/// Every result of a match (scores in tenths of goals, not negative) has a
/// winning option of each kind that can be bet on: the total-goals option is
/// the number of goals, counted up to 7, and the half-time/full-time option
/// is the half-time result followed by the full-time result.
pub proof fn lemma_winning_options_allowed(d: Seq<i32>)
    requires
        d.len() >= 5,
        d[0] >= 0,
        d[1] >= 0,
    ensures
        option_allowed(JcOption::WinDrawLose, winning_option(JcOption::WinDrawLose, false, d)),
        option_allowed(JcOption::WinDrawLose, winning_option(JcOption::WinDrawLose, true, d)),
        option_allowed(JcOption::Goals, winning_option(JcOption::Goals, false, d)),
        option_allowed(JcOption::Score, winning_option(JcOption::Score, false, d)),
        option_allowed(JcOption::HalfFull, winning_option(JcOption::HalfFull, false, d)),
        winning_option(JcOption::Goals, false, d) == seq![
            digit_char(if (d[0] + d[1]) / 10 > 7 { 7 } else { (d[0] + d[1]) / 10 }),
        ],
        winning_option(JcOption::HalfFull, false, d) == winning_option(JcOption::WinDrawLose, false, seq![d[3], d[4]])
            + winning_option(JcOption::WinDrawLose, false, d),
{
    let k = tenth(d[0] + d[1]);
    let g = if k > 7 { 7 } else { k };
    lemma_small_int_text(g);
    let p = seq![digit_char(g)];
    assert(0 <= g <= 7);
    assert(p.len() == 1 && p[0] == digit_char(g) && p[0] != '-' && p[0] != '+');
    assert(unsigned_part(p) == p);
    assert(p.drop_last() =~= Seq::<char>::empty());
    assert(digits_value(Seq::<char>::empty()) == 0);
    assert(p.last() as int - '0' as int == g);
    assert(digits_value(p) == g);
    assert(int_text_value(p) == g);
    lemma_score_option_allowed(d[0] as int, d[1] as int);
    let h = result_code(d[3] as int, d[4] as int);
    let f = result_code(d[0] as int, d[1] as int);
    assert((h + f).len() == 2 && (h + f)[0] == h[0] && (h + f)[1] == f[0]);
    assert(seq![d[3], d[4]][0] == d[3] && seq![d[3], d[4]][1] == d[4]);
}

/// In the basketball plays, `01` pays `3` exactly on a home win and `0`
/// otherwise; `02` pays `3` exactly where the home score plus the handicap
/// is ahead and any other option exactly where it is behind; `04` pays `1`
/// exactly where the total is above the line and any other option exactly
/// where it is below; `03` pays exactly the option of the margin's band.
pub proof fn lemma_basketball_wins(select: Seq<char>, home: int, away: int, line: int)
    ensures
        basketball_wins(seq!['0', '1'], seq!['3'], home, away, line) <==> home > away,
        basketball_wins(seq!['0', '1'], seq!['0'], home, away, line) <==> home <= away,
        basketball_wins(seq!['0', '2'], seq!['3'], home, away, line) <==> home * 10 + line > away * 10,
        select != seq!['3'] ==> (basketball_wins(seq!['0', '2'], select, home, away, line) <==> home * 10 + line
            < away * 10),
        basketball_wins(seq!['0', '4'], seq!['1'], home, away, line) <==> home * 10 + away * 10 > line,
        select != seq!['1'] ==> (basketball_wins(seq!['0', '4'], select, home, away, line) <==> home * 10 + away * 10
            < line),
        home > away ==> (basketball_wins(seq!['0', '3'], select, home, away, line) <==> select == seq![
            '0',
            digit_char(margin_band(home - away)),
        ]),
        home <= away ==> (basketball_wins(seq!['0', '3'], select, home, away, line) <==> select == seq![
            '1',
            digit_char(margin_band(away - home)),
        ]),
{
    assert(seq!['0', '1'] != seq!['0', '2']) by { assert(seq!['0', '1'][1] != seq!['0', '2'][1]); }
    assert(seq!['0', '1'] != seq!['0', '3']) by { assert(seq!['0', '1'][1] != seq!['0', '3'][1]); }
    assert(seq!['0', '1'] != seq!['0', '4']) by { assert(seq!['0', '1'][1] != seq!['0', '4'][1]); }
    assert(seq!['0', '2'] != seq!['0', '3']) by { assert(seq!['0', '2'][1] != seq!['0', '3'][1]); }
    assert(seq!['0', '2'] != seq!['0', '4']) by { assert(seq!['0', '2'][1] != seq!['0', '4'][1]); }
    assert(seq!['0', '3'] != seq!['0', '4']) by { assert(seq!['0', '3'][1] != seq!['0', '4'][1]); }
    assert(seq!['3'] != seq!['0']) by { assert(seq!['3'][0] != seq!['0'][0]); }
    lemma_margin_option_bands(home, away);
}

/// Single-match bets on win, draw or loss against a handicap.
pub struct DrawJcd0201;

impl DrawJcd0101 {
    /// The option that wins for the match result `draw_number` (home and
    /// away scores in tenths of goals, the handicap, the half-time scores):
    /// `3`, `1` or `0` for a home win, a draw or a home loss.
    pub fn winning_option(&self, draw_number: &Vec<i32>) -> (r: String)
        requires
            result_readable(JcOption::WinDrawLose, false, draw_number@),
        ensures
            r@ == winning_option(JcOption::WinDrawLose, false, draw_number@),
    {
        get_winning_option(JcOption::WinDrawLose, false, draw_number)
    }
}

impl DrawJcd0201 {
    /// The option that wins for the match result `draw_number` (home and
    /// away scores in tenths of goals, the handicap, the half-time scores):
    /// `3`, `1` or `0` for a home win, a draw or a home loss once the handicap is added to the home score.
    pub fn winning_option(&self, draw_number: &Vec<i32>) -> (r: String)
        requires
            result_readable(JcOption::WinDrawLose, true, draw_number@),
        ensures
            r@ == winning_option(JcOption::WinDrawLose, true, draw_number@),
    {
        get_winning_option(JcOption::WinDrawLose, true, draw_number)
    }
}

impl DrawJcd0301 {
    /// The option that wins for the match result `draw_number` (home and
    /// away scores in tenths of goals, the handicap, the half-time scores):
    /// the total goals, `7` for seven and more.
    pub fn winning_option(&self, draw_number: &Vec<i32>) -> (r: String)
        requires
            result_readable(JcOption::Goals, false, draw_number@),
        ensures
            r@ == winning_option(JcOption::Goals, false, draw_number@),
    {
        get_winning_option(JcOption::Goals, false, draw_number)
    }
}

impl DrawJcd0401 {
    /// The option that wins for the match result `draw_number` (home and
    /// away scores in tenths of goals, the handicap, the half-time scores):
    /// the score, or `90`, `99`, `09` for another win, draw or loss.
    pub fn winning_option(&self, draw_number: &Vec<i32>) -> (r: String)
        requires
            result_readable(JcOption::Score, false, draw_number@),
        ensures
            r@ == winning_option(JcOption::Score, false, draw_number@),
    {
        get_winning_option(JcOption::Score, false, draw_number)
    }
}

impl DrawJcd0501 {
    /// The option that wins for the match result `draw_number` (home and
    /// away scores in tenths of goals, the handicap, the half-time scores):
    /// the half-time result followed by the full-time result.
    pub fn winning_option(&self, draw_number: &Vec<i32>) -> (r: String)
        requires
            result_readable(JcOption::HalfFull, false, draw_number@),
        ensures
            r@ == winning_option(JcOption::HalfFull, false, draw_number@),
    {
        get_winning_option(JcOption::HalfFull, false, draw_number)
    }
}

} // verus!
