use vstd::prelude::*;
use std::collections::BTreeMap;

verus! {

/// The prize of one level, per bet: the bonus and the bonus after tax.
pub type LevelBonus = (i64, i64);

/// The winnings of one level: the level, the number of winning bets, the
/// bonus and the bonus after tax.
pub type LvDetail = (i32, i32, i64, i64);

/// One award: `count` winning bets at the level `lev`.
pub type Award = (i32, i32);

/// The totals and the winnings per level after some awards.
pub type Tally = (int, int, Map<i32, LvDetail>);

/// The state before any award.
pub open spec fn empty_tally() -> Tally {
    (0, 0, Map::empty())
}

/// The bonus of `count` bets at a level paying `per_bet`.
pub open spec fn scaled(per_bet: i64, count: i32) -> int {
    per_bet * count
}

/// Adds one award to the tally: nothing for a count of zero or less;
/// otherwise the level's bonuses times the count are added to the totals
/// and to the level's winnings, which start at the award itself.
pub open spec fn add_award(t: Tally, gl: Map<i64, LevelBonus>, a: Award) -> Tally {
    let (lev, count) = a;
    if count <= 0 {
        t
    } else {
        let g = gl[lev as i64];
        let b = scaled(g.0, count);
        let bt = scaled(g.1, count);
        let d = if t.2.contains_key(lev) {
            let o = t.2[lev];
            (o.0, (o.1 + count) as i32, (o.2 + b) as i64, (o.3 + bt) as i64)
        } else {
            (lev, count, b as i64, bt as i64)
        };
        (t.0 + b, t.1 + bt, t.2.insert(lev, d))
    }
}

/// The award can be added to the tally without overflow: its level has a
/// prize, and every product and sum fits its integer type.
pub open spec fn award_fits(t: Tally, gl: Map<i64, LevelBonus>, a: Award) -> bool {
    let (lev, count) = a;
    count > 0 ==> {
        let g = gl[lev as i64];
        let b = scaled(g.0, count);
        let bt = scaled(g.1, count);
        &&& gl.contains_key(lev as i64)
        &&& i64::MIN <= b <= i64::MAX
        &&& i64::MIN <= bt <= i64::MAX
        &&& i64::MIN <= t.0 + b <= i64::MAX
        &&& i64::MIN <= t.1 + bt <= i64::MAX
        &&& t.2.contains_key(lev) ==> {
            &&& t.2[lev].1 + count <= i32::MAX
            &&& i64::MIN <= t.2[lev].2 + b <= i64::MAX
            &&& i64::MIN <= t.2[lev].3 + bt <= i64::MAX
        }
    }
}

/// The tally after the awards `awards`, in order.
pub open spec fn tally(gl: Map<i64, LevelBonus>, awards: Seq<Award>) -> Tally
    decreases awards.len(),
{
    if awards.len() == 0 {
        empty_tally()
    } else {
        add_award(tally(gl, awards.drop_last()), gl, awards.last())
    }
}

/// Every award fits the tally of the awards before it.
pub open spec fn tally_fits(gl: Map<i64, LevelBonus>, awards: Seq<Award>) -> bool {
    forall|k: int| 0 <= k < awards.len() ==> #[trigger] award_fits(tally(gl, awards.take(k)), gl, awards[k])
}

/// The bonus after tax of a sports award paying `bonus`: a parlay award
/// (`taxed`) of a million and more keeps four fifths, rounded down; any other
/// award keeps all of it.
pub open spec fn sports_after_tax(bonus: int, taxed: bool) -> int {
    if taxed && bonus >= 1000000 {
        bonus * 4 / 5
    } else {
        bonus
    }
}

/// Adds a sports award to the tally: nothing for a count of zero or less;
/// otherwise `bonus` and its bonus after tax are added to the totals and to
/// the winnings of the level `lev`, which start at the award itself.
pub open spec fn add_sports_award(t: Tally, bonus: i64, lev: i32, count: i32, taxed: bool) -> Tally {
    if count <= 0 {
        t
    } else {
        let bt = sports_after_tax(bonus as int, taxed);
        let d = if t.2.contains_key(lev) {
            let o = t.2[lev];
            (o.0, (o.1 + count) as i32, (o.2 + bonus) as i64, (o.3 + bt) as i64)
        } else {
            (lev, count, bonus, bt as i64)
        };
        (t.0 + bonus, t.1 + bt, t.2.insert(lev, d))
    }
}

/// The sports award can be added to the tally without overflow.
pub open spec fn sports_award_fits(t: Tally, bonus: i64, lev: i32, count: i32, taxed: bool) -> bool {
    count > 0 ==> {
        let bt = sports_after_tax(bonus as int, taxed);
        &&& bonus * 4 <= i64::MAX
        &&& i64::MIN <= t.0 + bonus <= i64::MAX
        &&& i64::MIN <= t.1 + bt <= i64::MAX
        &&& t.2.contains_key(lev) ==> {
            &&& t.2[lev].1 + count <= i32::MAX
            &&& i64::MIN <= t.2[lev].2 + bonus <= i64::MAX
            &&& i64::MIN <= t.2[lev].3 + bt <= i64::MAX
        }
    }
}

/// The levels that won among `awards`, each once, in the order in which they
/// first won.
pub open spec fn levels_won(awards: Seq<Award>) -> Seq<i32>
    decreases awards.len(),
{
    if awards.len() == 0 {
        Seq::empty()
    } else {
        let ks = levels_won(awards.drop_last());
        let a = awards.last();
        if a.1 > 0 && !ks.contains(a.0) {
            ks.push(a.0)
        } else {
            ks
        }
    }
}

/// The winnings of the levels `ks` in `m`, summed: the bonuses, or the
/// bonuses after tax where `after_tax` holds.
pub open spec fn detail_total(m: Map<i32, LvDetail>, ks: Seq<i32>, after_tax: bool) -> int
    decreases ks.len(),
{
    if ks.len() == 0 {
        0
    } else {
        let d = m[ks.last()];
        detail_total(m, ks.drop_last(), after_tax) + if after_tax {
            d.3 as int
        } else {
            d.2 as int
        }
    }
}

proof fn lemma_detail_total_agree(m1: Map<i32, LvDetail>, m2: Map<i32, LvDetail>, ks: Seq<i32>, after_tax: bool)
    requires
        forall|i: int| 0 <= i < ks.len() ==> m1[#[trigger] ks[i]] == m2[ks[i]],
    ensures
        detail_total(m1, ks, after_tax) == detail_total(m2, ks, after_tax),
    decreases ks.len(),
{
    if ks.len() > 0 {
        let p = ks.drop_last();
        assert forall|i: int| 0 <= i < p.len() implies m1[#[trigger] p[i]] == m2[p[i]] by {
            assert(p[i] == ks[i]);
        }
        lemma_detail_total_agree(m1, m2, p, after_tax);
        assert(m1[ks[ks.len() - 1]] == m2[ks[ks.len() - 1]]);
    }
}

proof fn lemma_detail_total_update(m: Map<i32, LvDetail>, ks: Seq<i32>, lev: i32, d: LvDetail, after_tax: bool)
    requires
        ks.no_duplicates(),
        ks.contains(lev),
    ensures
        detail_total(m.insert(lev, d), ks, after_tax) == detail_total(m, ks, after_tax) + if after_tax {
            d.3 - m[lev].3
        } else {
            d.2 - m[lev].2
        },
    decreases ks.len(),
{
    let p = ks.drop_last();
    let m2 = m.insert(lev, d);
    if ks.last() == lev {
        assert(!p.contains(lev)) by {
            if p.contains(lev) {
                let i = choose|i: int| 0 <= i < p.len() && p[i] == lev;
                assert(ks[i] == ks[ks.len() - 1]);
            }
        }
        assert forall|i: int| 0 <= i < p.len() implies m2[#[trigger] p[i]] == m[p[i]] by {
            assert(p[i] != lev);
        }
        lemma_detail_total_agree(m2, m, p, after_tax);
    } else {
        assert(p.no_duplicates()) by {
            assert forall|i: int, j: int| 0 <= i < p.len() && 0 <= j < p.len() && i != j implies p[i] != p[j] by {
                assert(p[i] == ks[i] && p[j] == ks[j]);
            }
        }
        assert(p.contains(lev)) by {
            let i = choose|i: int| 0 <= i < ks.len() && ks[i] == lev;
            assert(i != ks.len() - 1);
            assert(p[i] == lev);
        }
        lemma_detail_total_update(m, p, lev, d, after_tax);
    }
}

/// After awards that fit, the levels of the tally are exactly the levels that
/// won, each filed under its own number, and each of the two totals is the
/// sum of the levels' winnings.
pub proof fn lemma_tally_totals(gl: Map<i64, LevelBonus>, awards: Seq<Award>)
    requires
        tally_fits(gl, awards),
    ensures
        levels_won(awards).no_duplicates(),
        forall|l: i32| #[trigger] tally(gl, awards).2.contains_key(l) <==> levels_won(awards).contains(l),
        forall|l: i32| #[trigger] tally(gl, awards).2.contains_key(l) ==> tally(gl, awards).2[l].0 == l,
        tally(gl, awards).0 == detail_total(tally(gl, awards).2, levels_won(awards), false),
        tally(gl, awards).1 == detail_total(tally(gl, awards).2, levels_won(awards), true),
    decreases awards.len(),
{
    if awards.len() > 0 {
        let p = awards.drop_last();
        let n = awards.len() - 1;
        assert(tally_fits(gl, p)) by {
            assert forall|k: int| 0 <= k < p.len() implies #[trigger] award_fits(tally(gl, p.take(k)), gl, p[k]) by {
                assert(p.take(k) =~= awards.take(k));
                assert(award_fits(tally(gl, awards.take(k)), gl, awards[k]));
            }
        }
        lemma_tally_totals(gl, p);
        assert(awards.take(n) =~= p);
        assert(award_fits(tally(gl, awards.take(n)), gl, awards[n]));
        let t = tally(gl, p);
        let ks = levels_won(p);
        let a = awards.last();
        let (lev, count) = a;
        if count > 0 {
            let g = gl[lev as i64];
            let b = scaled(g.0, count);
            let bt = scaled(g.1, count);
            if t.2.contains_key(lev) {
                let o = t.2[lev];
                let d = (o.0, (o.1 + count) as i32, (o.2 + b) as i64, (o.3 + bt) as i64);
                lemma_detail_total_update(t.2, ks, lev, d, false);
                lemma_detail_total_update(t.2, ks, lev, d, true);
            } else {
                let d = (lev, count, b as i64, bt as i64);
                let m2 = t.2.insert(lev, d);
                let ks2 = ks.push(lev);
                assert(ks2.drop_last() =~= ks);
                assert forall|i: int| 0 <= i < ks.len() implies m2[#[trigger] ks[i]] == t.2[ks[i]] by {
                    assert(ks.contains(ks[i]));
                }
                lemma_detail_total_agree(m2, t.2, ks, false);
                lemma_detail_total_agree(m2, t.2, ks, true);
                assert(ks2.no_duplicates()) by {
                    assert forall|i: int, j: int| 0 <= i < ks2.len() && 0 <= j < ks2.len() && i != j implies ks2[i] != ks2[j] by {
                        if i < ks.len() && j < ks.len() {
                            assert(ks2[i] == ks[i] && ks2[j] == ks[j]);
                        } else if i < ks.len() {
                            assert(ks.contains(ks2[i]));
                        } else {
                            assert(ks.contains(ks2[j]));
                        }
                    }
                }
                assert forall|l: i32| #[trigger] m2.contains_key(l) <==> ks2.contains(l) by {
                    if ks2.contains(l) && l != lev {
                        let i = choose|i: int| 0 <= i < ks2.len() && ks2[i] == l;
                        assert(i < ks.len());
                        assert(ks[i] == l);
                    }
                    if ks.contains(l) {
                        let i = choose|i: int| 0 <= i < ks.len() && ks[i] == l;
                        assert(ks2[i] == l);
                    }
                    if l == lev {
                        assert(ks2[ks.len() as int] == lev);
                    }
                }
            }
        }
    }
}

/// The result of a lottery draw for one ticket: the total bonus, the total
/// bonus after tax, and the winnings per level.
pub struct DrawSummary {
    pub bonus: i64,
    pub bonus_after_tax: i64,
    pub detail: BTreeMap<i32, LvDetail>,
}

impl View for DrawSummary {
    type V = Tally;

    open spec fn view(&self) -> Tally {
        (self.bonus as int, self.bonus_after_tax as int, self.detail@)
    }
}

impl DrawSummary {
    /// No winnings yet.
    pub fn new() -> (s: DrawSummary)
        ensures
            s@ == empty_tally(),
    {
        DrawSummary { bonus: 0, bonus_after_tax: 0, detail: BTreeMap::new() }
    }

    /// Adds `count` winning bets at the level `lev`, whose prize `gl` holds;
    /// returns the bonus and the bonus after tax that they add.
    pub fn append_rst(&mut self, gl: &BTreeMap<i64, LevelBonus>, lev: i32, count: i32) -> (r: (i64, i64))
        requires
            award_fits(old(self)@, gl@, (lev, count)),
        ensures
            final(self)@ == add_award(old(self)@, gl@, (lev, count)),
            r.0 == final(self)@.0 - old(self)@.0,
            r.1 == final(self)@.1 - old(self)@.1,
    {
        if count <= 0 {
            return (0, 0);
        }
        let key = lev as i64;
        let g = match gl.get(&key) {
            Some(g) => *g,
            None => {
                return (0, 0);
            },
        };
        let bonus = g.0 * (count as i64);
        let bonus_after_tax = g.1 * (count as i64);
        let d = match self.detail.get(&lev) {
            Some(o) => (o.0, o.1 + count, o.2 + bonus, o.3 + bonus_after_tax),
            None => (lev, count, bonus, bonus_after_tax),
        };
        self.detail.insert(lev, d);
        self.bonus = self.bonus + bonus;
        self.bonus_after_tax = self.bonus_after_tax + bonus_after_tax;
        (bonus, bonus_after_tax)
    }

    /// Adds `count` winning bets of a sports ticket at the level `lev`,
    /// paying `bonus` in all; a parlay award (`taxed`) of a million and more
    /// is taxed a fifth. Returns the bonus and the bonus after tax added.
    pub fn append_taxed(&mut self, bonus: i64, lev: i32, count: i32, taxed: bool) -> (r: (i64, i64))
        requires
            sports_award_fits(old(self)@, bonus, lev, count, taxed),
        ensures
            final(self)@ == add_sports_award(old(self)@, bonus, lev, count, taxed),
            r.0 == final(self)@.0 - old(self)@.0,
            r.1 == final(self)@.1 - old(self)@.1,
    {
        if count <= 0 {
            return (0, 0);
        }
        let bonus_after_tax = if taxed && bonus >= 1000000 {
            bonus * 4 / 5
        } else {
            bonus
        };
        let d = match self.detail.get(&lev) {
            Some(o) => (o.0, o.1 + count, o.2 + bonus, o.3 + bonus_after_tax),
            None => (lev, count, bonus, bonus_after_tax),
        };
        self.detail.insert(lev, d);
        self.bonus = self.bonus + bonus;
        self.bonus_after_tax = self.bonus_after_tax + bonus_after_tax;
        (bonus, bonus_after_tax)
    }
}

/// The summary of the awards `awards`, added in order.
pub fn settle(gl: &BTreeMap<i64, LevelBonus>, awards: &Vec<Award>) -> (s: DrawSummary)
    requires
        tally_fits(gl@, awards@),
    ensures
        s@ == tally(gl@, awards@),
{
    let mut s = DrawSummary::new();
    let mut k: usize = 0;
    assert(awards@.take(0) =~= Seq::<Award>::empty());
    while k < awards.len()
        invariant
            k <= awards@.len(),
            tally_fits(gl@, awards@),
            s@ == tally(gl@, awards@.take(k as int)),
        decreases awards@.len() - k,
    {
        let a = awards[k];
        assert(award_fits(tally(gl@, awards@.take(k as int)), gl@, awards@[k as int]));
        s.append_rst(gl, a.0, a.1);
        assert(awards@.take(k + 1).drop_last() =~= awards@.take(k as int));
        k = k + 1;
    }
    assert(awards@.take(awards@.len() as int) =~= awards@);
    s
}

} // verus!
