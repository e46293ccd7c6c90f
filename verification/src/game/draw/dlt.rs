use vstd::prelude::*;
use std::collections::BTreeMap;
use crate::game::base::{BetType, Game, PlayType, Ticket};
use crate::game::draw::settle::{settle, tally, tally_fits, Award, DrawSummary, LevelBonus};
use crate::game::format::split_at;
use crate::text::{chars_of, lemma_split_bounds, lemma_split_on_len, split_at_char, views};
use crate::util::math::{
    arrangements_fit, combinations, convolution, hit_count, lemma_combinations_pick, lemma_convolution_tail,
    lemma_hit_count_bound, lemma_vandermonde, pick, MathUtil,
};
use crate::util::number::{is_number_list, number_list_values, number_pieces, NumberUtil};

verus! {

/// The prize levels of the big lottery: red hits, blue hits and the level
/// they win.
pub open spec fn prize_rows() -> Seq<(i32, i32, i32)> {
    seq![
        (5i32, 2i32, 1i32),
        (5, 1, 2),
        (5, 0, 3),
        (4, 2, 3),
        (4, 1, 4),
        (4, 0, 5),
        (3, 2, 4),
        (3, 1, 5),
        (3, 0, 6),
        (2, 2, 5),
        (2, 1, 6),
        (1, 2, 6),
        (0, 2, 6),
    ]
}

/// The table of `prize_rows`.
fn relation_table() -> (v: Vec<(i32, i32, i32)>)
    ensures
        v@ == prize_rows(),
{
    let v = vec![
        (5i32, 2i32, 1i32),
        (5, 1, 2),
        (5, 0, 3),
        (4, 2, 3),
        (4, 1, 4),
        (4, 0, 5),
        (3, 2, 4),
        (3, 1, 5),
        (3, 0, 6),
        (2, 2, 5),
        (2, 1, 6),
        (1, 2, 6),
        (0, 2, 6),
    ];
    assert(v@ =~= prize_rows());
    v
}

/// The awards of the prize row `i` for `count` bets: at its level, and with
/// the additional play also at the level six further.
pub open spec fn row_award(i: int, count: i32, extra: bool) -> Seq<Award> {
    let lev = prize_rows()[i].2;
    if extra {
        seq![(lev, count), ((lev + 6) as i32, count)]
    } else {
        seq![(lev, count)]
    }
}

/// The awards of the first `k` prize rows, with `counts[i]` bets for row `i`.
pub open spec fn row_awards(counts: Seq<i32>, extra: bool, k: int) -> Seq<Award>
    decreases k,
{
    if k <= 0 {
        Seq::empty()
    } else {
        row_awards(counts, extra, k - 1) + row_award(k - 1, counts[k - 1], extra)
    }
}

/// The awards of all prize rows.
pub open spec fn awards_of(counts: Seq<i32>, extra: bool) -> Seq<Award> {
    row_awards(counts, extra, 13)
}

/// Appends the awards of all prize rows to `awards`.
fn push_awards(awards: &mut Vec<Award>, rows: &Vec<(i32, i32, i32)>, counts: &Vec<i32>, extra: bool)
    requires
        rows@ == prize_rows(),
        counts@.len() == 13,
    ensures
        final(awards)@ == old(awards)@ + awards_of(counts@, extra),
{
    let ghost start = awards@;
    let mut i: usize = 0;
    assert(start + row_awards(counts@, extra, 0) =~= start);
    while i < 13
        invariant
            rows@ == prize_rows(),
            counts@.len() == 13,
            i <= 13,
            awards@ == start + row_awards(counts@, extra, i as int),
        decreases 13 - i,
    {
        let lev = rows[i].2;
        awards.push((lev, counts[i]));
        if extra {
            awards.push((lev + 6, counts[i]));
        }
        assert(awards@ =~= start + row_awards(counts@, extra, i + 1));
        i = i + 1;
    }
}

/// The red zone of a draw: its first five numbers.
pub open spec fn red_of(s: Seq<i32>) -> Seq<i32> {
    s.subrange(0, 5)
}

/// The blue zone of a draw: its sixth and seventh numbers.
pub open spec fn blue_of(s: Seq<i32>) -> Seq<i32> {
    s.subrange(5, 7)
}

/// The bets of a single entry for each prize row: one for the row of its
/// red and blue hits, none for the others.
pub open spec fn single_counts(entry: Seq<i32>, draw: Seq<i32>) -> Seq<i32> {
    let rh = hit_count(red_of(entry), red_of(draw));
    let bh = hit_count(blue_of(entry), blue_of(draw));
    Seq::new(13, |i: int| if prize_rows()[i].0 == rh && prize_rows()[i].1 == bh { 1i32 } else { 0i32 })
}

/// The awards of single bets, entry after entry.
pub open spec fn single_awards(entries: Seq<Seq<char>>, draw: Seq<i32>, extra: bool) -> Seq<Award>
    decreases entries.len(),
{
    if entries.len() == 0 {
        Seq::empty()
    } else {
        single_awards(entries.drop_last(), draw, extra) + awards_of(
            single_counts(number_list_values(entries.last()), draw),
            extra,
        )
    }
}

/// Single bets can be drawn: the draw has seven numbers and every entry is a
/// number list of at least seven numbers.
pub open spec fn single_readable(number: Seq<char>, draw: Seq<i32>) -> bool {
    let entries = split_at_char(number, ';');
    &&& draw.len() >= 7
    &&& forall|i: int| 0 <= i < entries.len() ==> #[trigger] is_number_list(entries[i]) && number_list_values(
        entries[i],
    ).len() >= 7
}

/// A choice of `n` out of `m` can be computed without overflow.
pub open spec fn combo_ok(m: int, n: int) -> bool {
    0 <= n <= m ==> arrangements_fit(m, n) && arrangements_fit(n, n)
}

/// The ways to pick `total` numbers of a zone, `dl` of them fixed with `dh`
/// of those hit, the others among `tl` with `th` hit, so that `need` are hit.
pub open spec fn zone_count(th: int, tl: int, dh: int, dl: int, need: int, total: int) -> int {
    combinations(th, need - dh) * combinations(tl - th, total - (need - dh) - dl)
}

/// `zone_count` can be computed in 64 bits.
pub open spec fn zone_fits(th: int, tl: int, dh: int, dl: int, need: int, total: int) -> bool {
    &&& combo_ok(th, need - dh)
    &&& combo_ok(tl - th, total - (need - dh) - dl)
    &&& i64::MIN <= zone_count(th, tl, dh, dl, need, total) <= i64::MAX
}

/// The hits and sizes of the fixed and free numbers of both zones of a bet.
pub type ZoneHits = (int, int, int, int, int, int, int, int);

/// The bets of each prize row: the ways in the red zone times the ways in
/// the blue zone, as a 32-bit count.
pub open spec fn zone_counts(z: ZoneHits) -> Seq<i32> {
    Seq::new(
        13,
        |i: int|
            (zone_count(z.0, z.1, z.2, z.3, prize_rows()[i].0 as int, 5) * zone_count(
                z.4,
                z.5,
                z.6,
                z.7,
                prize_rows()[i].1 as int,
                2,
            )) as i32,
    )
}

/// The counts of prize row `i` can be computed in 64 bits.
pub open spec fn row_fits(z: ZoneHits, i: int) -> bool {
    let r = prize_rows()[i];
    &&& zone_fits(z.0, z.1, z.2, z.3, r.0 as int, 5)
    &&& zone_fits(z.4, z.5, z.6, z.7, r.1 as int, 2)
    &&& i64::MIN <= zone_count(z.0, z.1, z.2, z.3, r.0 as int, 5) * zone_count(z.4, z.5, z.6, z.7, r.1 as int, 2)
        <= i64::MAX
}

/// `zone_counts` can be computed in 64 bits.
pub open spec fn zone_counts_fit(z: ZoneHits) -> bool {
    forall|i: int| 0 <= i < 13 ==> #[trigger] row_fits(z, i)
}

/// The red and blue lists of a multiple bet `red|blue`.
pub open spec fn multiple_zones(number: Seq<char>) -> (Seq<i32>, Seq<i32>) {
    let ps = split_at_char(number, '|');
    (number_list_values(ps[0]), number_list_values(ps[1]))
}

/// The hits of a multiple bet, with no fixed numbers.
pub open spec fn multiple_hits(number: Seq<char>, draw: Seq<i32>) -> ZoneHits {
    let (red, blue) = multiple_zones(number);
    (hit_count(red, red_of(draw)) as int, red.len() as int, 0, 0, hit_count(blue, blue_of(draw)) as int, blue.len() as int, 0, 0)
}

/// A multiple bet can be drawn: two number lists whose hits fit 32 bits,
/// and a draw of seven numbers.
pub open spec fn multiple_readable(number: Seq<char>, draw: Seq<i32>) -> bool {
    let ps = split_at_char(number, '|');
    let (red, blue) = multiple_zones(number);
    &&& number.len() < i32::MAX
    &&& draw.len() >= 7
    &&& ps.len() >= 2
    &&& is_number_list(ps[0])
    &&& is_number_list(ps[1])
    &&& hit_count(red, red_of(draw)) <= i32::MAX
    &&& hit_count(blue, blue_of(draw)) <= i32::MAX
}

/// The fixed and free numbers of a zone `fixed$free`; without `$` all
/// numbers are fixed.
pub open spec fn banker_parts(zone: Seq<char>) -> (Seq<i32>, Seq<i32>) {
    let ps = split_at_char(zone, '$');
    if ps.len() == 1 {
        (number_list_values(ps[0]), Seq::empty())
    } else {
        (number_list_values(ps[0]), number_list_values(ps[1]))
    }
}

/// The hits of a banker bet `red|blue`, each zone `fixed$free`.
pub open spec fn banker_hits(number: Seq<char>, draw: Seq<i32>) -> ZoneHits {
    let ps = split_at_char(number, '|');
    let (rd, rt) = banker_parts(ps[0]);
    let (bd, bt) = banker_parts(ps[1]);
    (
        hit_count(rt, red_of(draw)) as int,
        rt.len() as int,
        hit_count(rd, red_of(draw)) as int,
        rd.len() as int,
        hit_count(bt, blue_of(draw)) as int,
        bt.len() as int,
        hit_count(bd, blue_of(draw)) as int,
        bd.len() as int,
    )
}

/// A zone `fixed$free` can be read.
pub open spec fn banker_zone_readable(zone: Seq<char>, d: Seq<i32>) -> bool {
    let ps = split_at_char(zone, '$');
    let (fixed, free) = banker_parts(zone);
    &&& is_number_list(ps[0])
    &&& ps.len() > 1 ==> is_number_list(ps[1])
    &&& hit_count(fixed, d) <= i32::MAX
    &&& hit_count(free, d) <= i32::MAX
}

/// A banker bet can be drawn.
pub open spec fn banker_readable(number: Seq<char>, draw: Seq<i32>) -> bool {
    let ps = split_at_char(number, '|');
    &&& number.len() < i32::MAX
    &&& draw.len() >= 7
    &&& ps.len() >= 2
    &&& banker_zone_readable(ps[0], red_of(draw))
    &&& banker_zone_readable(ps[1], blue_of(draw))
}

/// The bets of the prize rows for the given hits.
fn counts_of(
    rows: &Vec<(i32, i32, i32)>,
    th: i64,
    tl: i64,
    dh: i64,
    dl: i64,
    bth: i64,
    btl: i64,
    bdh: i64,
    bdl: i64,
) -> (counts: Vec<i32>)
    requires
        rows@ == prize_rows(),
        zone_counts_fit((th as int, tl as int, dh as int, dl as int, bth as int, btl as int, bdh as int, bdl as int)),
        0 <= th <= i32::MAX,
        0 <= tl <= i32::MAX,
        0 <= dh <= i32::MAX,
        0 <= dl <= i32::MAX,
        0 <= bth <= i32::MAX,
        0 <= btl <= i32::MAX,
        0 <= bdh <= i32::MAX,
        0 <= bdl <= i32::MAX,
    ensures
        counts@ == zone_counts((th as int, tl as int, dh as int, dl as int, bth as int, btl as int, bdh as int, bdl as int)),
{
    let ghost z = (th as int, tl as int, dh as int, dl as int, bth as int, btl as int, bdh as int, bdl as int);
    let mut counts: Vec<i32> = Vec::new();
    let mut i: usize = 0;
    while i < 13
        invariant
            rows@ == prize_rows(),
            zone_counts_fit(z),
            z == (th as int, tl as int, dh as int, dl as int, bth as int, btl as int, bdh as int, bdl as int),
            0 <= th <= i32::MAX,
            0 <= tl <= i32::MAX,
            0 <= dh <= i32::MAX,
            0 <= dl <= i32::MAX,
            0 <= bth <= i32::MAX,
            0 <= btl <= i32::MAX,
            0 <= bdh <= i32::MAX,
            0 <= bdl <= i32::MAX,
            i <= 13,
            counts@ == zone_counts(z).take(i as int),
        decreases 13 - i,
    {
        let row = rows[i];
        assert(row_fits(z, i as int));
        let red = zone_count_exec(th, tl, dh, dl, row.0 as i64, 5);
        let blue = zone_count_exec(bth, btl, bdh, bdl, row.1 as i64, 2);
        let count = red * blue;
        counts.push(count as i32);
        assert(counts@ =~= zone_counts(z).take(i + 1));
        i = i + 1;
    }
    assert(counts@ =~= zone_counts(z));
    counts
}

/// `zone_count` in 64 bits.
fn zone_count_exec(th: i64, tl: i64, dh: i64, dl: i64, need: i64, total: i64) -> (c: i64)
    requires
        zone_fits(th as int, tl as int, dh as int, dl as int, need as int, total as int),
        0 <= th <= i32::MAX,
        0 <= tl <= i32::MAX,
        0 <= dh <= i32::MAX,
        0 <= dl <= i32::MAX,
        0 <= need <= 5,
        0 <= total <= 5,
    ensures
        c == zone_count(th as int, tl as int, dh as int, dl as int, need as int, total as int),
{
    let a = MathUtil::get_c(th, need - dh);
    let b = MathUtil::get_c(tl - th, total - (need - dh) - dl);
    a * b
}

/// A number list read from a piece of a text shorter than `i32::MAX` has at
/// most `i32::MAX` numbers.
proof fn lemma_list_len(number: Seq<char>, sep: char, i: int)
    requires
        number.len() < i32::MAX,
        0 <= i < split_at_char(number, sep).len(),
    ensures
        number_list_values(split_at_char(number, sep)[i]).len() <= i32::MAX,
        split_at_char(number, sep)[i].len() <= number.len(),
{
    let p = split_at_char(number, sep)[i];
    lemma_split_bounds(number, seq![sep]);
    lemma_split_bounds(p, crate::util::number::number_seps());
}

/// The numbers of the pieces `lo..hi` of a draw.
fn zone(draw_number: &Vec<i32>, lo: usize, hi: usize) -> (z: Vec<i32>)
    requires
        lo <= hi <= draw_number@.len(),
    ensures
        z@ == draw_number@.subrange(lo as int, hi as int),
{
    let mut z: Vec<i32> = Vec::new();
    let mut i: usize = lo;
    while i < hi
        invariant
            lo <= i <= hi,
            hi <= draw_number@.len(),
            z@ == draw_number@.subrange(lo as int, i as int),
        decreases hi - i,
    {
        z.push(draw_number[i]);
        i = i + 1;
        assert(z@ =~= draw_number@.subrange(lo as int, i as int));
    }
    z
}

/// Single bets of the big lottery: each entry wins at the level of its red
/// and blue hits.
pub struct DrawDlt1010;

impl DrawDlt1010 {
    /// The winnings of up to five entries `r,r,r,r,r|b,b` separated by `;`
    /// against the draw `r,r,r,r,r,b,b`, with the additional play for the play
    /// type 60.
    pub fn draw(
        &self,
        ticket: &Ticket,
        draw_number: &Vec<i32>,
        gl: &BTreeMap<i64, LevelBonus>,
        game: &Game,
        play_type: &PlayType,
        bet_type: &BetType,
    ) -> (r: Result<DrawSummary, i32>)
        requires
            single_readable(ticket.number(), draw_number@),
            tally_fits(gl@, single_awards(split_at_char(ticket.number(), ';'), draw_number@, play_type@.0 == 60)),
        ensures
            r matches Ok(s) && s@ == tally(
                gl@,
                single_awards(split_at_char(ticket.number(), ';'), draw_number@, play_type@.0 == 60),
            ),
    {
        let rows = relation_table();
        let extra = play_type.id == 60;
        let cs = chars_of(ticket.get_number());
        let v = split_at(cs.as_slice(), ';');
        let ghost vs = split_at_char(ticket.number(), ';');
        let d_red = zone(draw_number, 0, 5);
        let d_blue = zone(draw_number, 5, 7);
        let mut awards: Vec<Award> = Vec::new();
        let mut i: usize = 0;
        assert(vs.take(0) =~= Seq::<Seq<char>>::empty());
        while i < v.len()
            invariant
                rows@ == prize_rows(),
                views(v@) == vs,
                vs == split_at_char(ticket.number(), ';'),
                single_readable(ticket.number(), draw_number@),
                d_red@ == red_of(draw_number@),
                d_blue@ == blue_of(draw_number@),
                i <= v@.len(),
                awards@ == single_awards(vs.take(i as int), draw_number@, extra),
            decreases v@.len() - i,
        {
            assert(v@[i as int]@ == vs[i as int]);
            assert(is_number_list(vs[i as int]));
            let entry = NumberUtil::ints_of_chars(v[i].as_slice());
            let e_red = zone(&entry, 0, 5);
            let e_blue = zone(&entry, 5, 7);
            proof {
                lemma_hit_count_bound(e_red@, d_red@);
                lemma_hit_count_bound(e_blue@, d_blue@);
            }
            let rh = MathUtil::get_hit_count(e_red.as_slice(), d_red.as_slice());
            let bh = MathUtil::get_hit_count(e_blue.as_slice(), d_blue.as_slice());
            let mut counts: Vec<i32> = Vec::new();
            let mut j: usize = 0;
            while j < 13
                invariant
                    rows@ == prize_rows(),
                    j <= 13,
                    rh == hit_count(red_of(entry@), red_of(draw_number@)),
                    bh == hit_count(blue_of(entry@), blue_of(draw_number@)),
                    counts@ == single_counts(entry@, draw_number@).take(j as int),
                decreases 13 - j,
            {
                let row = rows[j];
                if row.0 == rh && row.1 == bh {
                    counts.push(1);
                } else {
                    counts.push(0);
                }
                assert(counts@ =~= single_counts(entry@, draw_number@).take(j + 1));
                j = j + 1;
            }
            assert(counts@ =~= single_counts(entry@, draw_number@));
            push_awards(&mut awards, &rows, &counts, extra);
            assert(vs.take(i + 1).drop_last() =~= vs.take(i as int));
            i = i + 1;
        }
        assert(vs.take(vs.len() as int) =~= vs);
        Ok(settle(gl, &awards))
    }
}

/// Multiple bets of the big lottery.
pub struct DrawDlt1020;

impl DrawDlt1020 {
    /// The winnings of a multiple bet `red|blue`: for each level, the ways to
    /// pick five red and two blue numbers with the level's hits.
    pub fn draw(
        &self,
        ticket: &Ticket,
        draw_number: &Vec<i32>,
        gl: &BTreeMap<i64, LevelBonus>,
        game: &Game,
        play_type: &PlayType,
        bet_type: &BetType,
    ) -> (r: Result<DrawSummary, i32>)
        requires
            multiple_readable(ticket.number(), draw_number@),
            zone_counts_fit(multiple_hits(ticket.number(), draw_number@)),
            tally_fits(gl@, awards_of(zone_counts(multiple_hits(ticket.number(), draw_number@)), play_type@.0 == 60)),
        ensures
            r matches Ok(s) && s@ == tally(
                gl@,
                awards_of(zone_counts(multiple_hits(ticket.number(), draw_number@)), play_type@.0 == 60),
            ),
    {
        let rows = relation_table();
        let extra = play_type.id == 60;
        let cs = chars_of(ticket.get_number());
        let ghost number = ticket.number();
        let ps = split_at(cs.as_slice(), '|');
        assert(ps@[0]@ == split_at_char(number, '|')[0]);
        assert(ps@[1]@ == split_at_char(number, '|')[1]);
        let red = NumberUtil::ints_of_chars(ps[0].as_slice());
        let blue = NumberUtil::ints_of_chars(ps[1].as_slice());
        proof {
            lemma_list_len(number, '|', 0);
            lemma_list_len(number, '|', 1);
        }
        let d_red = zone(draw_number, 0, 5);
        let d_blue = zone(draw_number, 5, 7);
        let rh = MathUtil::get_hit_count(red.as_slice(), d_red.as_slice()) as i64;
        let bh = MathUtil::get_hit_count(blue.as_slice(), d_blue.as_slice()) as i64;
        let counts = counts_of(&rows, rh, red.len() as i64, 0, 0, bh, blue.len() as i64, 0, 0);
        let mut awards: Vec<Award> = Vec::new();
        push_awards(&mut awards, &rows, &counts, extra);
        assert(awards@ =~= awards_of(zone_counts(multiple_hits(number, draw_number@)), extra));
        Ok(settle(gl, &awards))
    }
}

/// The fixed and free numbers of a zone `fixed$free`.
fn banker_zone(zone_chars: &[char]) -> (r: (Vec<i32>, Vec<i32>))
    requires
        is_number_list(split_at_char(zone_chars@, '$')[0]),
        split_at_char(zone_chars@, '$').len() > 1 ==> is_number_list(split_at_char(zone_chars@, '$')[1]),
    ensures
        (r.0@, r.1@) == banker_parts(zone_chars@),
{
    let ps = split_at(zone_chars, '$');
    proof {
        lemma_split_on_len(zone_chars@, seq!['$']);
    }
    assert(ps@[0]@ == split_at_char(zone_chars@, '$')[0]);
    let fixed = NumberUtil::ints_of_chars(ps[0].as_slice());
    if ps.len() == 1 {
        (fixed, Vec::new())
    } else {
        assert(ps@[1]@ == split_at_char(zone_chars@, '$')[1]);
        let free = NumberUtil::ints_of_chars(ps[1].as_slice());
        (fixed, free)
    }
}

/// A list of a zone of a number shorter than `i32::MAX` has at most
/// `i32::MAX` numbers.
proof fn lemma_banker_len(number: Seq<char>, i: int)
    requires
        number.len() < i32::MAX,
        0 <= i < split_at_char(number, '|').len(),
    ensures
        banker_parts(split_at_char(number, '|')[i]).0.len() <= i32::MAX,
        banker_parts(split_at_char(number, '|')[i]).1.len() <= i32::MAX,
{
    let z = split_at_char(number, '|')[i];
    lemma_split_bounds(number, seq!['|']);
    lemma_split_bounds(z, seq!['$']);
    lemma_split_on_len(z, seq!['$']);
    let ps = split_at_char(z, '$');
    lemma_split_bounds(ps[0], crate::util::number::number_seps());
    if ps.len() > 1 {
        lemma_split_bounds(ps[1], crate::util::number::number_seps());
    }
}

/// Banker bets of the big lottery.
pub struct DrawDlt1030;

impl DrawDlt1030 {
    /// The winnings of a banker bet `red|blue`, each zone `fixed$free`: for
    /// each level, the ways to complete the fixed numbers with free ones to
    /// five red and two blue numbers with the level's hits.
    pub fn draw(
        &self,
        ticket: &Ticket,
        draw_number: &Vec<i32>,
        gl: &BTreeMap<i64, LevelBonus>,
        game: &Game,
        play_type: &PlayType,
        bet_type: &BetType,
    ) -> (r: Result<DrawSummary, i32>)
        requires
            banker_readable(ticket.number(), draw_number@),
            zone_counts_fit(banker_hits(ticket.number(), draw_number@)),
            tally_fits(gl@, awards_of(zone_counts(banker_hits(ticket.number(), draw_number@)), play_type@.0 == 60)),
        ensures
            r matches Ok(s) && s@ == tally(
                gl@,
                awards_of(zone_counts(banker_hits(ticket.number(), draw_number@)), play_type@.0 == 60),
            ),
    {
        let rows = relation_table();
        let extra = play_type.id == 60;
        let cs = chars_of(ticket.get_number());
        let ghost number = ticket.number();
        let ps = split_at(cs.as_slice(), '|');
        assert(ps@[0]@ == split_at_char(number, '|')[0]);
        assert(ps@[1]@ == split_at_char(number, '|')[1]);
        let (red_dan, red_tuo) = banker_zone(ps[0].as_slice());
        let (blue_dan, blue_tuo) = banker_zone(ps[1].as_slice());
        proof {
            lemma_banker_len(number, 0);
            lemma_banker_len(number, 1);
        }
        let d_red = zone(draw_number, 0, 5);
        let d_blue = zone(draw_number, 5, 7);
        let rdh = MathUtil::get_hit_count(red_dan.as_slice(), d_red.as_slice()) as i64;
        let rth = MathUtil::get_hit_count(red_tuo.as_slice(), d_red.as_slice()) as i64;
        let bdh = MathUtil::get_hit_count(blue_dan.as_slice(), d_blue.as_slice()) as i64;
        let bth = MathUtil::get_hit_count(blue_tuo.as_slice(), d_blue.as_slice()) as i64;
        let counts = counts_of(
            &rows,
            rth,
            red_tuo.len() as i64,
            rdh,
            red_dan.len() as i64,
            bth,
            blue_tuo.len() as i64,
            bdh,
            blue_dan.len() as i64,
        );
        let mut awards: Vec<Award> = Vec::new();
        push_awards(&mut awards, &rows, &counts, extra);
        assert(awards@ =~= awards_of(zone_counts(banker_hits(number, draw_number@)), extra));
        Ok(settle(gl, &awards))
    }
}

/// The ways of a zone summed over the hit counts `need < k`.
pub open spec fn zone_total(th: int, tl: int, dh: int, dl: int, total: int, k: int) -> int
    decreases k,
{
    if k <= 0 {
        0
    } else {
        zone_total(th, tl, dh, dl, total, k - 1) + zone_count(th, tl, dh, dl, k - 1, total)
    }
}

/// Summed up to `k`, the ways of a zone are the terms of Vandermonde's sum
/// shifted by the fixed hits.
proof fn lemma_zone_total_convolution(th: int, tl: int, dh: int, dl: int, total: int, k: int)
    requires
        0 <= th <= tl,
        0 <= dh,
    ensures
        k <= dh ==> zone_total(th, tl, dh, dl, total, k) == 0,
        k >= dh ==> zone_total(th, tl, dh, dl, total, k) == convolution(th, tl - th, total - dl, k - dh),
    decreases k,
{
    if k > 0 {
        lemma_zone_total_convolution(th, tl, dh, dl, total, k - 1);
        let i = k - 1 - dh;
        lemma_combinations_pick(th, i);
        lemma_combinations_pick(tl - th, total - i - dl);
        assert(zone_count(th, tl, dh, dl, k - 1, total) == pick(th, i) * pick(tl - th, (total - dl) - i));
        if k <= dh {
            assert(pick(th, i) == 0);
            assert(pick(th, i) * pick(tl - th, (total - dl) - i) == 0);
        }
    }
}

/// Every bet of a multiple or banker ticket falls in exactly one hit count
/// of each zone: with `dl` fixed numbers (`dh` of them hit) and `tl` free
/// ones (`th` hit), the ways summed over all hit counts up to the `total`
/// numbers of the zone are `C(tl, total - dl)`, the bets that validation
/// counts for the zone.
pub proof fn lemma_zone_partition(th: int, tl: int, dh: int, dl: int, total: int)
    requires
        0 <= th <= tl,
        0 <= dh <= dl <= total,
    ensures
        zone_total(th, tl, dh, dl, total, total + 1) == combinations(tl, total - dl),
{
    lemma_zone_total_convolution(th, tl, dh, dl, total, total + 1);
    lemma_convolution_tail(th, tl - th, total - dl, total + 1 - dh);
    lemma_vandermonde(th, tl - th, total - dl);
    lemma_combinations_pick(tl, total - dl);
}

/// The awards `aw` pay exactly one bet at the level `lev`, and with the
/// additional play one more at the level `lev + 6`, and nothing else.
pub open spec fn wins_exactly(aw: Seq<Award>, lev: i32, extra: bool) -> bool {
    &&& forall|k: int|
        0 <= k < aw.len() && (#[trigger] aw[k]).1 > 0 ==> aw[k] == (lev, 1i32) || (extra && aw[k] == (
            (lev + 6) as i32,
            1i32,
        ))
    &&& exists|k: int| 0 <= k < aw.len() && #[trigger] aw[k] == (lev, 1i32)
    &&& extra ==> exists|k: int| 0 <= k < aw.len() && #[trigger] aw[k] == ((lev + 6) as i32, 1i32)
}

/// The awards `aw` pay no bet.
pub open spec fn wins_nothing(aw: Seq<Award>) -> bool {
    forall|k: int| 0 <= k < aw.len() ==> (#[trigger] aw[k]).1 <= 0
}

/// The red and blue hits of a single bet `entry` in the draw `draw`.
pub open spec fn bet_hits(entry: Seq<i32>, draw: Seq<i32>) -> (int, int) {
    (hit_count(red_of(entry), red_of(draw)) as int, hit_count(blue_of(entry), blue_of(draw)) as int)
}

/// The award `a` is the award of the prize row `j`, at its level or, with
/// the additional play, six levels further.
spec fn from_row(a: Award, counts: Seq<i32>, extra: bool, j: int) -> bool {
    a == (prize_rows()[j].2, counts[j]) || (extra && a == ((prize_rows()[j].2 + 6) as i32, counts[j]))
}

/// The award `a` is the award of one of the first `k` prize rows.
spec fn from_some_row(a: Award, counts: Seq<i32>, extra: bool, k: int) -> bool {
    exists|j: int| 0 <= j < k && #[trigger] from_row(a, counts, extra, j)
}

/// Every award of `aw` is the award of one of the first `k` prize rows.
spec fn all_from_rows(aw: Seq<Award>, counts: Seq<i32>, extra: bool, k: int) -> bool {
    forall|i: int| 0 <= i < aw.len() ==> #[trigger] from_some_row(aw[i], counts, extra, k)
}

proof fn lemma_row_awards_from(counts: Seq<i32>, extra: bool, k: int)
    requires
        0 <= k <= 13,
    ensures
        all_from_rows(row_awards(counts, extra, k), counts, extra, k),
    decreases k,
{
    let all = row_awards(counts, extra, k);
    if k > 0 {
        lemma_row_awards_from(counts, extra, k - 1);
        let p = row_awards(counts, extra, k - 1);
        let q = row_award(k - 1, counts[k - 1], extra);
        assert(all == p + q);
        assert forall|i: int| 0 <= i < all.len() implies #[trigger] from_some_row(all[i], counts, extra, k) by {
            if i < p.len() {
                assert(all[i] == p[i]);
                assert(from_some_row(p[i], counts, extra, k - 1));
                let j = choose|j: int| 0 <= j < k - 1 && #[trigger] from_row(p[i], counts, extra, j);
                assert(from_row(all[i], counts, extra, j));
            } else {
                assert(all[i] == q[i - p.len()]);
                assert(from_row(all[i], counts, extra, k - 1));
            }
        }
    } else {
        assert(all.len() == 0);
    }
}

proof fn lemma_row_awards_has(counts: Seq<i32>, extra: bool, k: int, j: int)
    requires
        0 <= j < k <= 13,
    ensures
        exists|i: int| 0 <= i < row_awards(counts, extra, k).len() && #[trigger] row_awards(counts, extra, k)[i] == (
            prize_rows()[j].2,
            counts[j],
        ),
        extra ==> exists|i: int|
            0 <= i < row_awards(counts, extra, k).len() && #[trigger] row_awards(counts, extra, k)[i] == (
                (prize_rows()[j].2 + 6) as i32,
                counts[j],
            ),
    decreases k,
{
    let p = row_awards(counts, extra, k - 1);
    let q = row_award(k - 1, counts[k - 1], extra);
    let all = row_awards(counts, extra, k);
    assert(all == p + q);
    if j < k - 1 {
        lemma_row_awards_has(counts, extra, k - 1, j);
        let i = choose|i: int| 0 <= i < p.len() && p[i] == (prize_rows()[j].2, counts[j]);
        assert(all[i] == p[i]);
        if extra {
            let i2 = choose|i: int| 0 <= i < p.len() && p[i] == ((prize_rows()[j].2 + 6) as i32, counts[j]);
            assert(all[i2] == p[i2]);
        }
    } else {
        assert(all[p.len() as int] == q[0]);
        if extra {
            assert(all[p.len() as int + 1] == q[1]);
        }
    }
}

proof fn lemma_prize_pairs_distinct()
    ensures
        forall|i: int, j: int|
            0 <= i < 13 && 0 <= j < 13 && (#[trigger] prize_rows()[i]).0 == (#[trigger] prize_rows()[j]).0
                && prize_rows()[i].1 == prize_rows()[j].1 ==> i == j,
{
    assert forall|i: int, j: int|
        0 <= i < 13 && 0 <= j < 13 && (#[trigger] prize_rows()[i]).0 == (#[trigger] prize_rows()[j]).0
            && prize_rows()[i].1 == prize_rows()[j].1 implies i == j by {
        assert(i == 0 || i == 1 || i == 2 || i == 3 || i == 4 || i == 5 || i == 6 || i == 7 || i == 8 || i == 9
            || i == 10 || i == 11 || i == 12);
        assert(j == 0 || j == 1 || j == 2 || j == 3 || j == 4 || j == 5 || j == 6 || j == 7 || j == 8 || j == 9
            || j == 10 || j == 11 || j == 12);
    }
}

proof fn lemma_single_bet_row(entry: Seq<i32>, draw: Seq<i32>, extra: bool, row: int)
    requires
        0 <= row < 13,
        prize_rows()[row].0 == bet_hits(entry, draw).0,
        prize_rows()[row].1 == bet_hits(entry, draw).1,
    ensures
        wins_exactly(awards_of(single_counts(entry, draw), extra), prize_rows()[row].2, extra),
{
    let counts = single_counts(entry, draw);
    let aw = awards_of(counts, extra);
    lemma_row_awards_from(counts, extra, 13);
    lemma_row_awards_has(counts, extra, 13, row);
    lemma_prize_pairs_distinct();
    let lev = prize_rows()[row].2;
    assert(counts[row] == 1);
    assert forall|k: int| 0 <= k < aw.len() && (#[trigger] aw[k]).1 > 0 implies aw[k] == (lev, 1i32) || (extra
        && aw[k] == ((lev + 6) as i32, 1i32)) by {
        assert(from_some_row(aw[k], counts, extra, 13));
        let j = choose|j: int| 0 <= j < 13 && #[trigger] from_row(aw[k], counts, extra, j);
        assert(counts[j] > 0);
        assert(prize_rows()[j].0 == prize_rows()[row].0 && prize_rows()[j].1 == prize_rows()[row].1);
        assert(j == row);
    }
    assert(exists|i: int| 0 <= i < aw.len() && #[trigger] aw[i] == (prize_rows()[row].2, counts[row]));
    if extra {
        assert(exists|i: int| 0 <= i < aw.len() && #[trigger] aw[i] == ((prize_rows()[row].2 + 6) as i32, counts[row]));
    }
}

/// The prize of a single bet of the big lottery, by its red and blue hits:
/// 5+2 wins the first prize, 5+1 the second, 5+0 and 4+2 the third, 4+1 and
/// 3+2 the fourth, 4+0, 3+1 and 2+2 the fifth, 3+0, 2+1, 1+2 and 0+2 the
/// sixth, each one bet (and one more six levels further with the additional
/// play); any other bet wins nothing.
pub proof fn lemma_single_bet_prize(entry: Seq<i32>, draw: Seq<i32>, extra: bool)
    ensures
        bet_hits(entry, draw) == (5int, 2int) ==> wins_exactly(awards_of(single_counts(entry, draw), extra), 1, extra),
        bet_hits(entry, draw) == (5int, 1int) ==> wins_exactly(awards_of(single_counts(entry, draw), extra), 2, extra),
        bet_hits(entry, draw) == (5int, 0int) ==> wins_exactly(awards_of(single_counts(entry, draw), extra), 3, extra),
        bet_hits(entry, draw) == (4int, 2int) ==> wins_exactly(awards_of(single_counts(entry, draw), extra), 3, extra),
        bet_hits(entry, draw) == (4int, 1int) ==> wins_exactly(awards_of(single_counts(entry, draw), extra), 4, extra),
        bet_hits(entry, draw) == (3int, 2int) ==> wins_exactly(awards_of(single_counts(entry, draw), extra), 4, extra),
        bet_hits(entry, draw) == (4int, 0int) ==> wins_exactly(awards_of(single_counts(entry, draw), extra), 5, extra),
        bet_hits(entry, draw) == (3int, 1int) ==> wins_exactly(awards_of(single_counts(entry, draw), extra), 5, extra),
        bet_hits(entry, draw) == (2int, 2int) ==> wins_exactly(awards_of(single_counts(entry, draw), extra), 5, extra),
        bet_hits(entry, draw) == (3int, 0int) ==> wins_exactly(awards_of(single_counts(entry, draw), extra), 6, extra),
        bet_hits(entry, draw) == (2int, 1int) ==> wins_exactly(awards_of(single_counts(entry, draw), extra), 6, extra),
        bet_hits(entry, draw) == (1int, 2int) ==> wins_exactly(awards_of(single_counts(entry, draw), extra), 6, extra),
        bet_hits(entry, draw) == (0int, 2int) ==> wins_exactly(awards_of(single_counts(entry, draw), extra), 6, extra),
        (bet_hits(entry, draw).0 + bet_hits(entry, draw).1 < 3 && bet_hits(entry, draw).1 < 2) ==> wins_nothing(
            awards_of(single_counts(entry, draw), extra),
        ),
{
    let (r, b) = bet_hits(entry, draw);
    let counts = single_counts(entry, draw);
    let aw = awards_of(counts, extra);
    let rows = prize_rows();
    if r == 5 && b == 2 {
        lemma_single_bet_row(entry, draw, extra, 0);
    } else if r == 5 && b == 1 {
        lemma_single_bet_row(entry, draw, extra, 1);
    } else if r == 5 && b == 0 {
        lemma_single_bet_row(entry, draw, extra, 2);
    } else if r == 4 && b == 2 {
        lemma_single_bet_row(entry, draw, extra, 3);
    } else if r == 4 && b == 1 {
        lemma_single_bet_row(entry, draw, extra, 4);
    } else if r == 4 && b == 0 {
        lemma_single_bet_row(entry, draw, extra, 5);
    } else if r == 3 && b == 2 {
        lemma_single_bet_row(entry, draw, extra, 6);
    } else if r == 3 && b == 1 {
        lemma_single_bet_row(entry, draw, extra, 7);
    } else if r == 3 && b == 0 {
        lemma_single_bet_row(entry, draw, extra, 8);
    } else if r == 2 && b == 2 {
        lemma_single_bet_row(entry, draw, extra, 9);
    } else if r == 2 && b == 1 {
        lemma_single_bet_row(entry, draw, extra, 10);
    } else if r == 1 && b == 2 {
        lemma_single_bet_row(entry, draw, extra, 11);
    } else if r == 0 && b == 2 {
        lemma_single_bet_row(entry, draw, extra, 12);
    } else if r + b < 3 && b < 2 {
        lemma_row_awards_from(counts, extra, 13);
        assert forall|k: int| 0 <= k < aw.len() implies (#[trigger] aw[k]).1 <= 0 by {
            assert(from_some_row(aw[k], counts, extra, 13));
            let j = choose|j: int| 0 <= j < 13 && #[trigger] from_row(aw[k], counts, extra, j);
            assert(j == 0 || j == 1 || j == 2 || j == 3 || j == 4 || j == 5 || j == 6 || j == 7 || j == 8 || j == 9
                || j == 10 || j == 11 || j == 12);
            assert(counts[j] == 0);
        }
    }
}

} // verus!
