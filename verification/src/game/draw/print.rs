use vstd::prelude::*;
use crate::game::base::Print;
use crate::game::format::split_at;
use crate::game::validate::jc::{option_allowed, play_kind, play_kind_exec, JcOption};
use crate::game::draw::sports::{lemma_score_option_allowed, margin_option, score_option};
use crate::text::{digits_value, int_text_value, unsigned_part, chars_eq, chars_of, push_chars, push_str_chars, split_at_char, string_of, views};

verus! {

/// The number of bytes of `c` in UTF-8.
pub open spec fn char_bytes(c: char) -> int {
    let u = c as u32;
    if u < 0x80 {
        1
    } else if u < 0x800 {
        2
    } else if u < 0x10000 {
        3
    } else {
        4
    }
}

/// `s` without its last `n` bytes of UTF-8; `None` where `s` has fewer bytes
/// or the cut falls inside a character.
pub open spec fn drop_bytes(s: Seq<char>, n: int) -> Option<Seq<char>>
    decreases s.len(),
{
    if n == 0 {
        Some(s)
    } else if n < 0 || s.len() == 0 {
        None
    } else {
        drop_bytes(s.drop_last(), n - char_bytes(s.last()))
    }
}

fn char_bytes_exec(c: char) -> (n: i64)
    ensures
        n == char_bytes(c),
{
    let u = c as u32;
    if u < 0x80 {
        1
    } else if u < 0x800 {
        2
    } else if u < 0x10000 {
        3
    } else {
        4
    }
}

/// `drop_bytes` on characters.
pub fn drop_bytes_exec(s: &[char], n: i64) -> (r: Option<Vec<char>>)
    requires
        0 <= n <= 4,
    ensures
        r is Some <==> drop_bytes(s@, n as int) is Some,
        r matches Some(v) ==> v@ == drop_bytes(s@, n as int)->0,
{
    let mut end: usize = s.len();
    let mut left: i64 = n;
    assert(s@.take(end as int) =~= s@);
    while end > 0 && left > 0
        invariant
            end <= s@.len(),
            -4 <= left <= 4,
            drop_bytes(s@, n as int) == drop_bytes(s@.take(end as int), left as int),
        decreases end,
    {
        let b = char_bytes_exec(s[end - 1]);
        assert(s@.take(end as int).drop_last() =~= s@.take(end - 1));
        left = left - b;
        end = end - 1;
    }
    if left == 0 {
        let mut v: Vec<char> = Vec::new();
        let mut i: usize = 0;
        while i < end
            invariant
                i <= end <= s@.len(),
                v@ == s@.take(i as int),
            decreases end - i,
        {
            v.push(s[i]);
            i = i + 1;
            assert(v@ =~= s@.take(i as int));
        }
        Some(v)
    } else {
        None
    }
}

/// `s` with every `pat` replaced by `rep`, scanning from the left as
/// `str::replace` does.
pub open spec fn replace_all(s: Seq<char>, pat: Seq<char>, rep: Seq<char>) -> Seq<char>
    decreases s.len(),
{
    if pat.len() == 0 || s.len() < pat.len() {
        s
    } else if s.take(pat.len() as int) == pat {
        rep + replace_all(s.skip(pat.len() as int), pat, rep)
    } else {
        seq![s[0]] + replace_all(s.skip(1), pat, rep)
    }
}

/// Whether `pat` occurs in `s` at `i`.
fn occurs_at(s: &[char], pat: &[char], i: usize) -> (b: bool)
    requires
        i <= s@.len(),
    ensures
        b == (pat@.len() <= s@.len() - i && s@.skip(i as int).take(pat@.len() as int) == pat@),
{
    if pat.len() > s.len() - i {
        return false;
    }
    let mut k: usize = 0;
    while k < pat.len()
        invariant
            i + pat@.len() <= s@.len(),
            s@.len() <= usize::MAX,
            k <= pat@.len(),
            forall|j: int| 0 <= j < k ==> s@[i + j] == pat@[j],
        decreases pat@.len() - k,
    {
        if s[i + k] != pat[k] {
            assert(s@.skip(i as int).take(pat@.len() as int)[k as int] != pat@[k as int]);
            return false;
        }
        k = k + 1;
    }
    assert(s@.skip(i as int).take(pat@.len() as int) =~= pat@);
    true
}

fn replace_all_exec(s: &[char], pat: &[char], rep: &[char]) -> (r: Vec<char>)
    requires
        pat@.len() > 0,
    ensures
        r@ == replace_all(s@, pat@, rep@),
{
    let mut out: Vec<char> = Vec::new();
    let mut i: usize = 0;
    assert(s@.skip(0) =~= s@);
    while i < s.len()
        invariant
            i <= s@.len(),
            pat@.len() > 0,
            out@ + replace_all(s@.skip(i as int), pat@, rep@) == replace_all(s@, pat@, rep@),
        decreases s@.len() - i,
    {
        let ghost rest = s@.skip(i as int);
        if occurs_at(s, pat, i) {
            assert(rest.skip(pat@.len() as int) =~= s@.skip(i + pat@.len()));
            let ghost before = out@;
            push_chars(&mut out, rep);
            assert(before + (rep@ + replace_all(s@.skip(i + pat@.len()), pat@, rep@)) =~= out@ + replace_all(
                s@.skip(i + pat@.len()),
                pat@,
                rep@,
            ));
            i = i + pat.len();
        } else {
            proof {
                assert(rest.skip(1) =~= s@.skip(i + 1));
                if rest.len() < pat@.len() {
                    assert(rest =~= seq![s[i as int]] + s@.skip(i + 1));
                    assert(s@.skip(i + 1).len() < pat@.len());
                }
            }
            let ghost before = out@;
            out.push(s[i]);
            assert(before + (seq![s[i as int]] + replace_all(s@.skip(i + 1), pat@, rep@)) =~= out@ + replace_all(
                s@.skip(i + 1),
                pat@,
                rep@,
            ));
            i = i + 1;
        }
    }
    assert(s@.skip(s@.len() as int) =~= Seq::<char>::empty());
    assert(out@ + Seq::<char>::empty() =~= out@);
    out
}

/// The first position at or after `i` where `pat` occurs in `s`.
pub open spec fn find_from(s: Seq<char>, pat: Seq<char>, i: int) -> Option<int>
    decreases s.len() - i,
{
    if i < 0 || i + pat.len() > s.len() {
        None
    } else if s.skip(i).take(pat.len() as int) == pat {
        Some(i)
    } else if i >= s.len() {
        None
    } else {
        find_from(s, pat, i + 1)
    }
}

pub(crate) fn find_exec(s: &[char], pat: &[char]) -> (r: Option<usize>)
    ensures
        r is Some <==> find_from(s@, pat@, 0) is Some,
        r matches Some(i) ==> i == find_from(s@, pat@, 0)->0 && i + pat@.len() <= s@.len(),
{
    let mut i: usize = 0;
    while i < s.len() && pat.len() <= s.len() - i
        invariant
            i <= s@.len(),
            find_from(s@, pat@, 0) == find_from(s@, pat@, i as int),
        decreases s@.len() - i,
    {
        if occurs_at(s, pat, i) {
            return Some(i);
        }
        i = i + 1;
    }
    if i == s.len() && pat.len() == 0 {
        assert(s@.skip(i as int).take(0) =~= pat@);
        return Some(i);
    }
    None
}

/// `s` without its first `n` bytes of UTF-8; `None` where `s` has fewer
/// bytes or the cut falls inside a character.
pub open spec fn drop_front_bytes(s: Seq<char>, n: int) -> Option<Seq<char>>
    decreases s.len(),
{
    if n == 0 {
        Some(s)
    } else if n < 0 || s.len() == 0 {
        None
    } else {
        drop_front_bytes(s.drop_first(), n - char_bytes(s[0]))
    }
}

fn drop_front_bytes_exec(s: &[char], n: i64) -> (r: Option<Vec<char>>)
    requires
        0 <= n <= 64,
    ensures
        r is Some <==> drop_front_bytes(s@, n as int) is Some,
        r matches Some(v) ==> v@ == drop_front_bytes(s@, n as int)->0,
{
    let mut start: usize = 0;
    let mut left: i64 = n;
    assert(s@.skip(0) =~= s@);
    while start < s.len() && left > 0
        invariant
            start <= s@.len(),
            -4 <= left <= 64,
            drop_front_bytes(s@, n as int) == drop_front_bytes(s@.skip(start as int), left as int),
        decreases s@.len() - start,
    {
        let b = char_bytes_exec(s[start]);
        assert(s@.skip(start as int).drop_first() =~= s@.skip(start + 1));
        left = left - b;
        start = start + 1;
    }
    if left == 0 {
        let mut v: Vec<char> = Vec::new();
        let mut i: usize = start;
        while i < s.len()
            invariant
                start <= i <= s@.len(),
                v@ == s@.subrange(start as int, i as int),
            decreases s@.len() - i,
        {
            v.push(s[i]);
            i = i + 1;
            assert(v@ =~= s@.subrange(start as int, i as int));
        }
        assert(v@ =~= s@.skip(start as int));
        Some(v)
    } else {
        if start == s.len() {
            assert(s@.skip(start as int) =~= Seq::<char>::empty());
        }
        None
    }
}

/// The labels printed on a stub for the options of a play.
#[derive(Debug, Clone, Copy, PartialEq, Eq)]
pub enum RateLabels {
    /// Football win, draw or loss: `胜`, `平`, `负`.
    WinDrawLose,
    /// Football total goals: `(0)` to `(7)`.
    Goals,
    /// Football scores such as `(2:1)` and `(胜其它)`.
    Score,
    /// Football half-time and full-time results such as `胜平`.
    HalfFull,
    /// Basketball win or loss: `胜`, `负`.
    WinLose,
    /// Basketball winning margins such as `(主1-5)` and `(客26)`.
    Margin,
    /// Basketball total points over or under: `大`, `小`.
    Total,
}

/// The labels of a football play's options.
pub open spec fn football_labels(k: JcOption) -> RateLabels {
    match k {
        JcOption::WinDrawLose => RateLabels::WinDrawLose,
        JcOption::Goals => RateLabels::Goals,
        JcOption::Score => RateLabels::Score,
        JcOption::HalfFull => RateLabels::HalfFull,
    }
}

fn football_labels_exec(k: JcOption) -> (r: RateLabels)
    ensures
        r == football_labels(k),
{
    match k {
        JcOption::WinDrawLose => RateLabels::WinDrawLose,
        JcOption::Goals => RateLabels::Goals,
        JcOption::Score => RateLabels::Score,
        JcOption::HalfFull => RateLabels::HalfFull,
    }
}

/// The option key of each label printed on a ticket, by kind of labels.
pub open spec fn label_table(kind: RateLabels) -> Seq<(Seq<char>, Seq<char>)> {
    match kind {
        RateLabels::WinDrawLose => seq![
            ("胜"@, "3"@),
            ("平"@, "1"@),
            ("负"@, "0"@),
        ],
        RateLabels::Goals => seq![
            ("(0)"@, "0"@),
            ("(1)"@, "1"@),
            ("(2)"@, "2"@),
            ("(3)"@, "3"@),
            ("(4)"@, "4"@),
            ("(5)"@, "5"@),
            ("(6)"@, "6"@),
            ("(7)"@, "7"@),
        ],
        RateLabels::Score => seq![
            ("(1:0)"@, "10"@),
            ("(2:0)"@, "20"@),
            ("(2:1)"@, "21"@),
            ("(3:0)"@, "30"@),
            ("(3:1)"@, "31"@),
            ("(3:2)"@, "32"@),
            ("(4:0)"@, "40"@),
            ("(4:1)"@, "41"@),
            ("(4:2)"@, "42"@),
            ("(5:0)"@, "50"@),
            ("(5:1)"@, "51"@),
            ("(5:2)"@, "52"@),
            ("(胜其它)"@, "90"@),
            ("(0:0)"@, "00"@),
            ("(1:1)"@, "11"@),
            ("(2:2)"@, "22"@),
            ("(3:3)"@, "33"@),
            ("(平其它)"@, "99"@),
            ("(0:1)"@, "01"@),
            ("(0:2)"@, "02"@),
            ("(1:2)"@, "12"@),
            ("(0:3)"@, "03"@),
            ("(1:3)"@, "13"@),
            ("(2:3)"@, "23"@),
            ("(0:4)"@, "04"@),
            ("(1:4)"@, "14"@),
            ("(2:4)"@, "24"@),
            ("(0:5)"@, "05"@),
            ("(1:5)"@, "15"@),
            ("(2:5)"@, "25"@),
            ("(负其它)"@, "09"@),
        ],
        RateLabels::HalfFull => seq![
            ("胜胜"@, "33"@),
            ("胜平"@, "31"@),
            ("胜负"@, "30"@),
            ("平胜"@, "13"@),
            ("平平"@, "11"@),
            ("平负"@, "10"@),
            ("负胜"@, "03"@),
            ("负平"@, "01"@),
            ("负负"@, "00"@),
        ],
        RateLabels::WinLose => seq![
            ("胜"@, "3"@),
            ("负"@, "0"@),
        ],
        RateLabels::Margin => seq![
            ("(主1-5)"@, "01"@),
            ("(主6-10)"@, "02"@),
            ("(主11-15)"@, "03"@),
            ("(主16-20)"@, "04"@),
            ("(主21-25)"@, "05"@),
            ("(主26)"@, "06"@),
            ("(客1-5)"@, "11"@),
            ("(客6-10)"@, "12"@),
            ("(客11-15)"@, "13"@),
            ("(客16-20)"@, "14"@),
            ("(客21-25)"@, "15"@),
            ("(客26)"@, "16"@),
        ],
        RateLabels::Total => seq![
            ("大"@, "1"@),
            ("小"@, "2"@),
        ],
    }
}

/// The views of a table of text pairs.
pub open spec fn pair_views(t: Seq<(&str, &str)>) -> Seq<(Seq<char>, Seq<char>)> {
    t.map_values(|p: (&str, &str)| (p.0@, p.1@))
}

fn label_table_exec(kind: RateLabels) -> (t: Vec<(&'static str, &'static str)>)
    ensures
        pair_views(t@) == label_table(kind),
{
    match kind {
        RateLabels::WinDrawLose => {
            let t = vec![
                ("胜", "3"),
                ("平", "1"),
                ("负", "0"),
            ];
            assert(pair_views(t@) =~= label_table(kind));
            t
        },
        RateLabels::Goals => {
            let t = vec![
                ("(0)", "0"),
                ("(1)", "1"),
                ("(2)", "2"),
                ("(3)", "3"),
                ("(4)", "4"),
                ("(5)", "5"),
                ("(6)", "6"),
                ("(7)", "7"),
            ];
            assert(pair_views(t@) =~= label_table(kind));
            t
        },
        RateLabels::Score => {
            let t = vec![
                ("(1:0)", "10"),
                ("(2:0)", "20"),
                ("(2:1)", "21"),
                ("(3:0)", "30"),
                ("(3:1)", "31"),
                ("(3:2)", "32"),
                ("(4:0)", "40"),
                ("(4:1)", "41"),
                ("(4:2)", "42"),
                ("(5:0)", "50"),
                ("(5:1)", "51"),
                ("(5:2)", "52"),
                ("(胜其它)", "90"),
                ("(0:0)", "00"),
                ("(1:1)", "11"),
                ("(2:2)", "22"),
                ("(3:3)", "33"),
                ("(平其它)", "99"),
                ("(0:1)", "01"),
                ("(0:2)", "02"),
                ("(1:2)", "12"),
                ("(0:3)", "03"),
                ("(1:3)", "13"),
                ("(2:3)", "23"),
                ("(0:4)", "04"),
                ("(1:4)", "14"),
                ("(2:4)", "24"),
                ("(0:5)", "05"),
                ("(1:5)", "15"),
                ("(2:5)", "25"),
                ("(负其它)", "09"),
            ];
            assert(pair_views(t@) =~= label_table(kind));
            t
        },
        RateLabels::HalfFull => {
            let t = vec![
                ("胜胜", "33"),
                ("胜平", "31"),
                ("胜负", "30"),
                ("平胜", "13"),
                ("平平", "11"),
                ("平负", "10"),
                ("负胜", "03"),
                ("负平", "01"),
                ("负负", "00"),
            ];
            assert(pair_views(t@) =~= label_table(kind));
            t
        },
        RateLabels::WinLose => {
            let t = vec![
                ("胜", "3"),
                ("负", "0"),
            ];
            assert(pair_views(t@) =~= label_table(kind));
            t
        },
        RateLabels::Margin => {
            let t = vec![
                ("(主1-5)", "01"),
                ("(主6-10)", "02"),
                ("(主11-15)", "03"),
                ("(主16-20)", "04"),
                ("(主21-25)", "05"),
                ("(主26)", "06"),
                ("(客1-5)", "11"),
                ("(客6-10)", "12"),
                ("(客11-15)", "13"),
                ("(客16-20)", "14"),
                ("(客21-25)", "15"),
                ("(客26)", "16"),
            ];
            assert(pair_views(t@) =~= label_table(kind));
            t
        },
        RateLabels::Total => {
            let t = vec![
                ("大", "1"),
                ("小", "2"),
            ];
            assert(pair_views(t@) =~= label_table(kind));
            t
        },
    }
}

/// The key of the first entry of `t` labelled `label`, or `-1`.
pub open spec fn first_key(t: Seq<(Seq<char>, Seq<char>)>, label: Seq<char>) -> Seq<char>
    decreases t.len(),
{
    if t.len() == 0 {
        seq!['-', '1']
    } else if t[0].0 == label {
        t[0].1
    } else {
        first_key(t.skip(1), label)
    }
}

/// The option key of a printed label of the kind `kind`; `-1` for an unknown
/// label.
pub open spec fn label_key(kind: RateLabels, label: Seq<char>) -> Seq<char> {
    first_key(label_table(kind), label)
}

fn label_key_exec(kind: RateLabels, label: &[char]) -> (k: Vec<char>)
    ensures
        k@ == label_key(kind, label@),
{
    let t = label_table_exec(kind);
    let ghost tv = pair_views(t@);
    let mut i: usize = 0;
    assert(tv.skip(0) =~= tv);
    while i < t.len()
        invariant
            tv == pair_views(t@),
            tv == label_table(kind),
            i <= t@.len(),
            first_key(tv, label@) == first_key(tv.skip(i as int), label@),
        decreases t@.len() - i,
    {
        let e = t[i];
        let l = chars_of(e.0);
        assert(tv.skip(i as int)[0] == (e.0@, e.1@));
        if chars_eq(l.as_slice(), label) {
            return chars_of(e.1);
        }
        assert(tv.skip(i as int).skip(1) =~= tv.skip(i + 1));
        i = i + 1;
    }
    let mut k: Vec<char> = Vec::new();
    k.push('-');
    k.push('1');
    assert(k@ =~= seq!['-', '1']);
    k
}

/// The rate line as labels are read: `(7+)` is read as `(7)` for goals and
/// `26+` as `26` for winning margins.
pub open spec fn rate_line(kind: RateLabels, line: Seq<char>) -> Seq<char> {
    match kind {
        RateLabels::Goals => replace_all(line, seq!['(', '7', '+', ')'], seq!['(', '7', ')']),
        RateLabels::Margin => replace_all(line, seq!['2', '6', '+'], seq!['2', '6']),
        _ => line,
    }
}

/// One printed rate `label@rate元`: the option key of the label and the rate
/// without its last three bytes (the currency sign); `None` where the piece
/// has no `@` or the cut is not possible.
pub open spec fn rate_pair(kind: RateLabels, piece: Seq<char>) -> Option<(Seq<char>, Seq<char>)> {
    let q = split_at_char(piece, '@');
    if q.len() < 2 {
        None
    } else {
        match drop_bytes(q[1], 3) {
            Some(d) => Some((label_key(kind, q[0]), d)),
            None => None,
        }
    }
}

/// The rates of the pieces, in order; `None` where one cannot be read.
pub open spec fn rate_pairs_of(kind: RateLabels, pieces: Seq<Seq<char>>) -> Option<Seq<(Seq<char>, Seq<char>)>>
    decreases pieces.len(),
{
    if pieces.len() == 0 {
        Some(Seq::empty())
    } else {
        match (rate_pairs_of(kind, pieces.drop_last()), rate_pair(kind, pieces.last())) {
            (Some(ps), Some(p)) => Some(ps.push(p)),
            _ => None,
        }
    }
}

/// The rates of a printed rate line, its pieces separated by `+`.
pub open spec fn rate_pairs(kind: RateLabels, line: Seq<char>) -> Option<Seq<(Seq<char>, Seq<char>)>> {
    rate_pairs_of(kind, split_at_char(rate_line(kind, line), '+'))
}

/// A piece that cannot be read makes the whole line unreadable.
proof fn lemma_rate_pairs_none(kind: RateLabels, pieces: Seq<Seq<char>>, k: int)
    requires
        0 <= k <= pieces.len(),
        rate_pairs_of(kind, pieces.take(k)) is None,
    ensures
        rate_pairs_of(kind, pieces) is None,
    decreases pieces.len() - k,
{
    if k < pieces.len() {
        assert(pieces.take(k + 1).drop_last() =~= pieces.take(k));
        lemma_rate_pairs_none(kind, pieces, k + 1);
    } else {
        assert(pieces.take(k) =~= pieces);
    }
}

/// The views of a vector of pairs of character vectors.
pub open spec fn pairs_view(v: Seq<(Vec<char>, Vec<char>)>) -> Seq<(Seq<char>, Seq<char>)> {
    v.map_values(|p: (Vec<char>, Vec<char>)| (p.0@, p.1@))
}

fn rate_pairs_exec(kind: RateLabels, line: &[char]) -> (r: Option<Vec<(Vec<char>, Vec<char>)>>)
    ensures
        r is Some <==> rate_pairs(kind, line@) is Some,
        r matches Some(v) ==> pairs_view(v@) == rate_pairs(kind, line@)->0,
{
    let l = match kind {
        RateLabels::Goals => {
            let pat = vec!['(', '7', '+', ')'];
            let rep = vec!['(', '7', ')'];
            assert(pat@ =~= seq!['(', '7', '+', ')'] && rep@ =~= seq!['(', '7', ')']);
            replace_all_exec(line, pat.as_slice(), rep.as_slice())
        },
        RateLabels::Margin => {
            let pat = vec!['2', '6', '+'];
            let rep = vec!['2', '6'];
            assert(pat@ =~= seq!['2', '6', '+'] && rep@ =~= seq!['2', '6']);
            replace_all_exec(line, pat.as_slice(), rep.as_slice())
        },
        _ => {
            let mut c: Vec<char> = Vec::new();
            push_chars(&mut c, line);
            assert(c@ =~= line@);
            c
        },
    };
    assert(l@ == rate_line(kind, line@));
    let pieces = split_at(l.as_slice(), '+');
    let ghost ps = split_at_char(l@, '+');
    let mut out: Vec<(Vec<char>, Vec<char>)> = Vec::new();
    let mut i: usize = 0;
    assert(ps.take(0) =~= Seq::<Seq<char>>::empty());
    while i < pieces.len()
        invariant
            views(pieces@) == ps,
            ps == split_at_char(rate_line(kind, line@), '+'),
            i <= pieces@.len(),
            rate_pairs_of(kind, ps.take(i as int)) == Some(pairs_view(out@)),
        decreases pieces@.len() - i,
    {
        let piece = pieces[i].as_slice();
        assert(piece@ == ps[i as int]);
        assert(ps.take(i + 1).drop_last() =~= ps.take(i as int));
        assert(ps.take(i + 1).last() == ps[i as int]);
        let q = split_at(piece, '@');
        if q.len() < 2 {
            proof {
                lemma_rate_pairs_none(kind, ps, i + 1);
            }
            return None;
        }
        assert(q@[1]@ == split_at_char(piece@, '@')[1]);
        assert(q@[0]@ == split_at_char(piece@, '@')[0]);
        let d = match drop_bytes_exec(q[1].as_slice(), 3) {
            Some(d) => d,
            None => {
                proof {
                    lemma_rate_pairs_none(kind, ps, i + 1);
                }
                return None;
            },
        };
        let key = label_key_exec(kind, q[0].as_slice());
        let ghost before = pairs_view(out@);
        out.push((key, d));
        assert(pairs_view(out@) =~= before.push((key@, d@)));
        i = i + 1;
    }
    assert(ps.take(ps.len() as int) =~= ps);
    Some(out)
}

/// The rate of the option `key`: that of its last entry in `pairs`.
pub open spec fn rate_of(pairs: Seq<(Seq<char>, Seq<char>)>, key: Seq<char>) -> Option<Seq<char>>
    decreases pairs.len(),
{
    if pairs.len() == 0 {
        None
    } else if pairs.last().0 == key {
        Some(pairs.last().1)
    } else {
        rate_of(pairs.drop_last(), key)
    }
}

fn rate_of_exec<'a>(pairs: &'a Vec<(Vec<char>, Vec<char>)>, key: &[char]) -> (r: Option<&'a Vec<char>>)
    ensures
        r is Some <==> rate_of(pairs_view(pairs@), key@) is Some,
        r matches Some(v) ==> v@ == rate_of(pairs_view(pairs@), key@)->0,
{
    let ghost pv = pairs_view(pairs@);
    let mut i: usize = pairs.len();
    assert(pv.take(i as int) =~= pv);
    while i > 0
        invariant
            pv == pairs_view(pairs@),
            i <= pairs@.len(),
            rate_of(pv, key@) == rate_of(pv.take(i as int), key@),
        decreases i,
    {
        let e = &pairs[i - 1];
        assert(pv.take(i as int).last() == (e.0@, e.1@));
        assert(pv.take(i as int).drop_last() =~= pv.take(i - 1));
        if chars_eq(e.0.as_slice(), key) {
            return Some(&e.1);
        }
        i = i - 1;
    }
    None
}

/// An option with its tag and its rate: `option` `tag` `@rate`.
pub open spec fn rated(option: Seq<char>, tag: Seq<char>, rate: Seq<char>) -> Seq<char> {
    option + tag + seq!['@'] + rate
}

/// The options with the tag and their rates, separated by `,`; `None` where
/// an option has no rate.
pub open spec fn join_rated(opts: Seq<Seq<char>>, pairs: Seq<(Seq<char>, Seq<char>)>, tag: Seq<char>) -> Option<Seq<char>>
    decreases opts.len(),
{
    if opts.len() == 0 {
        Some(Seq::empty())
    } else {
        match (join_rated(opts.drop_last(), pairs, tag), rate_of(pairs, opts.last())) {
            (Some(p), Some(r)) => Some(
                if opts.len() == 1 {
                    rated(opts.last(), tag, r)
                } else {
                    p + seq![','] + rated(opts.last(), tag, r)
                },
            ),
            _ => None,
        }
    }
}

/// An option without a rate makes the whole list unprintable.
proof fn lemma_join_none(opts: Seq<Seq<char>>, pairs: Seq<(Seq<char>, Seq<char>)>, tag: Seq<char>, k: int)
    requires
        0 <= k <= opts.len(),
        join_rated(opts.take(k), pairs, tag) is None,
    ensures
        join_rated(opts, pairs, tag) is None,
    decreases opts.len() - k,
{
    if k < opts.len() {
        assert(opts.take(k + 1).drop_last() =~= opts.take(k));
        lemma_join_none(opts, pairs, tag, k + 1);
    } else {
        assert(opts.take(k) =~= opts);
    }
}

/// Appends the options `opts` of the text with their rates to `out`.
fn push_rated(out: &mut Vec<char>, opts_text: &[char], pairs: &Vec<(Vec<char>, Vec<char>)>, tag: &[char]) -> (ok: bool)
    ensures
        ok <==> join_rated(split_at_char(opts_text@, ','), pairs_view(pairs@), tag@) is Some,
        ok ==> final(out)@ == old(out)@ + join_rated(split_at_char(opts_text@, ','), pairs_view(pairs@), tag@)->0,
{
    let opts = split_at(opts_text, ',');
    let ghost os = split_at_char(opts_text@, ',');
    let ghost pv = pairs_view(pairs@);
    let ghost start = out@;
    let mut i: usize = 0;
    assert(os.take(0) =~= Seq::<Seq<char>>::empty());
    assert(start + Seq::<char>::empty() =~= start);
    while i < opts.len()
        invariant
            views(opts@) == os,
            os == split_at_char(opts_text@, ','),
            pv == pairs_view(pairs@),
            i <= opts@.len(),
            join_rated(os.take(i as int), pv, tag@) is Some,
            out@ == start + join_rated(os.take(i as int), pv, tag@)->0,
        decreases opts@.len() - i,
    {
        let o = opts[i].as_slice();
        assert(o@ == os[i as int]);
        assert(os.take(i + 1).drop_last() =~= os.take(i as int));
        assert(os.take(i + 1).last() == os[i as int]);
        let r = match rate_of_exec(pairs, o) {
            Some(r) => r,
            None => {
                proof {
                    lemma_join_none(os, pv, tag@, i + 1);
                }
                return false;
            },
        };
        let ghost before = out@;
        if i > 0 {
            out.push(',');
        }
        push_chars(out, o);
        push_chars(out, tag);
        out.push('@');
        push_chars(out, r.as_slice());
        proof {
            let prev = join_rated(os.take(i as int), pv, tag@)->0;
            if i == 0 {
                assert(prev =~= Seq::<char>::empty());
                assert(out@ =~= start + rated(o@, tag@, r@));
            } else {
                assert(out@ =~= start + (prev + seq![','] + rated(o@, tag@, r@)));
            }
        }
        i = i + 1;
    }
    assert(os.take(os.len() as int) =~= os);
    true
}

/// The print number of a single-match bet `code:options|pass` with the rates
/// `pairs`: `code:option@rate,...|pass`.
pub open spec fn single_print(number: Seq<char>, pairs: Seq<(Seq<char>, Seq<char>)>) -> Option<Seq<char>> {
    let ni = split_at_char(number, '|');
    let nf = split_at_char(ni[0], ':');
    if ni.len() < 2 || nf.len() < 2 {
        None
    } else {
        match join_rated(split_at_char(nf[1], ','), pairs, Seq::empty()) {
            Some(t) => Some(nf[0] + seq![':'] + t + seq!['|'] + ni[1]),
            None => None,
        }
    }
}

/// The print number of a single-match bet of the kind `kind` with the rates
/// of the seventh line of the ticket stub.
pub open spec fn single_match_print(kind: RateLabels, number: Seq<char>, stub: Seq<char>) -> Option<Seq<char>> {
    let lines = split_at_char(stub, '\n');
    if lines.len() < 7 {
        None
    } else {
        match rate_pairs(kind, lines[6]) {
            Some(ps) => single_print(number, ps),
            None => None,
        }
    }
}

fn single_match_print_exec(kind: RateLabels, number: &str, stub: &str) -> (r: Option<Vec<char>>)
    ensures
        r is Some <==> single_match_print(kind, number@, stub@) is Some,
        r matches Some(v) ==> v@ == single_match_print(kind, number@, stub@)->0,
{
    let stub_chars = chars_of(stub);
    let lines = split_at(stub_chars.as_slice(), '\n');
    if lines.len() < 7 {
        return None;
    }
    assert(lines@[6]@ == split_at_char(stub@, '\n')[6]);
    let pairs = match rate_pairs_exec(kind, lines[6].as_slice()) {
        Some(p) => p,
        None => return None,
    };
    let number_chars = chars_of(number);
    let ni = split_at(number_chars.as_slice(), '|');
    proof {
        crate::text::lemma_split_on_len(number@, seq!['|']);
    }
    assert(ni@[0]@ == split_at_char(number@, '|')[0]);
    let nf = split_at(ni[0].as_slice(), ':');
    if ni.len() < 2 || nf.len() < 2 {
        return None;
    }
    assert(ni@[1]@ == split_at_char(number@, '|')[1]);
    assert(nf@[0]@ == split_at_char(ni@[0]@, ':')[0]);
    assert(nf@[1]@ == split_at_char(ni@[0]@, ':')[1]);
    let mut out: Vec<char> = Vec::new();
    push_chars(&mut out, nf[0].as_slice());
    out.push(':');
    let no_tag: Vec<char> = Vec::new();
    assert(no_tag@ =~= Seq::<char>::empty());
    if !push_rated(&mut out, nf[1].as_slice(), &pairs, no_tag.as_slice()) {
        return None;
    }
    out.push('|');
    push_chars(&mut out, ni[1].as_slice());
    Some(out)
}

/// The labels of a basketball play's options: win or loss (also against a
/// handicap) for `01` and `02`, winning margin for `03`, total points for `04`.
pub open spec fn basketball_labels(cur: Seq<char>) -> Option<RateLabels> {
    if cur == seq!['0', '1'] || cur == seq!['0', '2'] {
        Some(RateLabels::WinLose)
    } else if cur == seq!['0', '3'] {
        Some(RateLabels::Margin)
    } else if cur == seq!['0', '4'] {
        Some(RateLabels::Total)
    } else {
        None
    }
}

/// The labels of the options of the play `cur`, football or basketball.
pub open spec fn play_labels(cur: Seq<char>, basketball: bool) -> Option<RateLabels> {
    if basketball {
        basketball_labels(cur)
    } else {
        match play_kind(cur) {
            Some(k) => Some(football_labels(k)),
            None => None,
        }
    }
}

fn play_labels_exec(cur: &[char], basketball: bool) -> (r: Option<RateLabels>)
    ensures
        r == play_labels(cur@, basketball),
{
    if basketball {
        if cur.len() != 2 || cur[0] != '0' {
            proof {
                if cur@.len() == 2 {
                    assert(seq!['0', '1'][0] == '0' && seq!['0', '2'][0] == '0');
                    assert(seq!['0', '3'][0] == '0' && seq!['0', '4'][0] == '0');
                }
            }
            return None;
        }
        let c = cur[1];
        assert(cur@ =~= seq!['0', c]);
        proof {
            assert(seq!['0', '1'][1] == '1' && seq!['0', '2'][1] == '2');
            assert(seq!['0', '3'][1] == '3' && seq!['0', '4'][1] == '4');
        }
        if c == '1' || c == '2' {
            Some(RateLabels::WinLose)
        } else if c == '3' {
            Some(RateLabels::Margin)
        } else if c == '4' {
            Some(RateLabels::Total)
        } else {
            None
        }
    } else {
        match play_kind_exec(cur) {
            Some(k) => Some(football_labels_exec(k)),
            None => None,
        }
    }
}

/// The text that follows the handicap label on a basketball stub.
pub open spec fn handicap_label() -> Seq<char> {
    "固定奖让分:"@
}

/// The text that follows the preset total label on a basketball stub.
pub open spec fn preset_total_label() -> Seq<char> {
    "固定奖预设总分:"@
}

/// The rest of `info` after the first `label` and `skip` bytes from its
/// start, in brackets.
pub open spec fn bracket_after(info: Seq<char>, label: Seq<char>, skip: int) -> Option<Seq<char>> {
    match find_from(info, label, 0) {
        None => None,
        Some(i) => match drop_front_bytes(info.skip(i), skip) {
            None => None,
            Some(r) => Some(seq!['('] + r + seq![')']),
        },
    }
}

/// The tag printed after each option of the play `cur`: for basketball
/// handicap and total-points plays, the handicap or the preset total read
/// from the stub's time line, in brackets; nothing otherwise.
pub open spec fn play_tag(cur: Seq<char>, info: Seq<char>, basketball: bool) -> Option<Seq<char>> {
    if basketball && cur == seq!['0', '2'] {
        bracket_after(info, handicap_label(), 19)
    } else if basketball && cur == seq!['0', '4'] {
        bracket_after(info, preset_total_label(), 22)
    } else {
        Some(Seq::empty())
    }
}

fn bracket_after_exec(info: &[char], label: &str, skip: i64) -> (r: Option<Vec<char>>)
    requires
        0 <= skip <= 64,
    ensures
        r is Some <==> bracket_after(info@, label@, skip as int) is Some,
        r matches Some(v) ==> v@ == bracket_after(info@, label@, skip as int)->0,
{
    let l = chars_of(label);
    let i = match find_exec(info, l.as_slice()) {
        Some(i) => i,
        None => return None,
    };
    let mut rest: Vec<char> = Vec::new();
    let mut k: usize = i;
    assert(rest@ =~= info@.subrange(i as int, k as int));
    while k < info.len()
        invariant
            i <= k <= info@.len(),
            rest@ == info@.subrange(i as int, k as int),
        decreases info@.len() - k,
    {
        rest.push(info[k]);
        k = k + 1;
        assert(rest@ =~= info@.subrange(i as int, k as int));
    }
    assert(rest@ =~= info@.skip(i as int));
    let r = match drop_front_bytes_exec(rest.as_slice(), skip) {
        Some(r) => r,
        None => return None,
    };
    let mut out: Vec<char> = Vec::new();
    out.push('(');
    push_chars(&mut out, r.as_slice());
    out.push(')');
    assert(out@ =~= seq!['('] + r@ + seq![')']);
    Some(out)
}

fn play_tag_exec(cur: &[char], info: &[char], basketball: bool) -> (r: Option<Vec<char>>)
    ensures
        r is Some <==> play_tag(cur@, info@, basketball) is Some,
        r matches Some(v) ==> v@ == play_tag(cur@, info@, basketball)->0,
{
    let two = vec!['0', '2'];
    let four = vec!['0', '4'];
    assert(two@ =~= seq!['0', '2'] && four@ =~= seq!['0', '4']);
    if basketball && chars_eq(cur, two.as_slice()) {
        bracket_after_exec(info, "固定奖让分:", 19)
    } else if basketball && chars_eq(cur, four.as_slice()) {
        bracket_after_exec(info, "固定奖预设总分:", 22)
    } else {
        let v: Vec<char> = Vec::new();
        assert(v@ =~= Seq::<char>::empty());
        Some(v)
    }
}

/// The printed match of a parlay `code:options` (or `code:play:options` in a
/// mixed parlay) with the rates of its stub line `rate` and the time line
/// `info`: `code:option tag@rate,...`, the play kept where the match names
/// it; empty for an unknown play.
pub open spec fn match_print(m: Seq<char>, play: Seq<char>, info: Seq<char>, rate: Seq<char>, basketball: bool) -> Option<Seq<char>> {
    let mp = split_at_char(m, ':');
    let named = mp.len() == 3;
    if !named && mp.len() < 2 {
        None
    } else {
        let cur = if named { mp[1] } else { play };
        let opts = if named { mp[2] } else { mp[1] };
        match play_labels(cur, basketball) {
            None => Some(Seq::empty()),
            Some(k) => match play_tag(cur, info, basketball) {
                None => None,
                Some(tag) => match rate_pairs(k, rate) {
                    None => None,
                    Some(ps) => match join_rated(split_at_char(opts, ','), ps, tag) {
                        None => None,
                        Some(t) => Some(
                            if named {
                                mp[0] + seq![':'] + cur + seq![':'] + t
                            } else {
                                mp[0] + seq![':'] + t
                            },
                        ),
                    },
                },
            },
        }
    }
}

fn match_print_exec(m: &[char], play: &[char], info: &[char], rate: &[char], basketball: bool) -> (r: Option<Vec<char>>)
    ensures
        r is Some <==> match_print(m@, play@, info@, rate@, basketball) is Some,
        r matches Some(v) ==> v@ == match_print(m@, play@, info@, rate@, basketball)->0,
{
    let mp = split_at(m, ':');
    let named = mp.len() == 3;
    if !named && mp.len() < 2 {
        return None;
    }
    assert(mp@[0]@ == split_at_char(m@, ':')[0]);
    assert(mp@[1]@ == split_at_char(m@, ':')[1]);
    let cur: &[char] = if named {
        mp[1].as_slice()
    } else {
        play
    };
    let opts: &[char] = if named {
        assert(mp@[2]@ == split_at_char(m@, ':')[2]);
        mp[2].as_slice()
    } else {
        mp[1].as_slice()
    };
    let kind = match play_labels_exec(cur, basketball) {
        Some(k) => k,
        None => return Some(Vec::new()),
    };
    let tag = match play_tag_exec(cur, info, basketball) {
        Some(t) => t,
        None => return None,
    };
    let pairs = match rate_pairs_exec(kind, rate) {
        Some(p) => p,
        None => return None,
    };
    let mut out: Vec<char> = Vec::new();
    push_chars(&mut out, mp[0].as_slice());
    out.push(':');
    if named {
        push_chars(&mut out, cur);
        out.push(':');
    }
    if !push_rated(&mut out, opts, &pairs, tag.as_slice()) {
        return None;
    }
    Some(out)
}

/// The printed matches, separated by `;`, the match `k` rated by the stub
/// line `6 + 3 * k` with the time line two above it.
pub open spec fn matches_print(ms: Seq<Seq<char>>, play: Seq<char>, lines: Seq<Seq<char>>, basketball: bool) -> Option<Seq<char>>
    decreases ms.len(),
{
    if ms.len() == 0 {
        Some(Seq::empty())
    } else {
        let k = ms.len() - 1;
        match matches_print(ms.drop_last(), play, lines, basketball) {
            None => None,
            Some(p) => if 6 + 3 * k >= lines.len() {
                None
            } else {
                match match_print(ms.last(), play, lines[4 + 3 * k], lines[6 + 3 * k], basketball) {
                    None => None,
                    Some(t) => Some(if k == 0 { t } else { p + seq![';'] + t }),
                }
            },
        }
    }
}

/// The print number of a parlay `matches|pass` of the play `play` with the
/// rates of its stub: the printed matches, `|` and the pass type.
pub open spec fn parlay_print(number: Seq<char>, play: Seq<char>, stub: Seq<char>, basketball: bool) -> Option<Seq<char>> {
    let lines = split_at_char(stub, '\n');
    let ni = split_at_char(number, '|');
    if ni.len() < 2 {
        None
    } else {
        match matches_print(split_at_char(ni[0], ';'), play, lines, basketball) {
            None => None,
            Some(t) => Some(t + seq!['|'] + ni[1]),
        }
    }
}

/// A match that cannot be printed makes the whole parlay unprintable.
proof fn lemma_matches_none(ms: Seq<Seq<char>>, play: Seq<char>, lines: Seq<Seq<char>>, basketball: bool, k: int)
    requires
        0 <= k <= ms.len(),
        matches_print(ms.take(k), play, lines, basketball) is None,
    ensures
        matches_print(ms, play, lines, basketball) is None,
    decreases ms.len() - k,
{
    if k < ms.len() {
        assert(ms.take(k + 1).drop_last() =~= ms.take(k));
        lemma_matches_none(ms, play, lines, basketball, k + 1);
    } else {
        assert(ms.take(k) =~= ms);
    }
}

fn parlay_print_exec(number: &str, play: &[char], stub: &str, basketball: bool) -> (r: Option<Vec<char>>)
    ensures
        r is Some <==> parlay_print(number@, play@, stub@, basketball) is Some,
        r matches Some(v) ==> v@ == parlay_print(number@, play@, stub@, basketball)->0,
{
    let stub_chars = chars_of(stub);
    let lines = split_at(stub_chars.as_slice(), '\n');
    let ghost ls = split_at_char(stub@, '\n');
    let number_chars = chars_of(number);
    let ni = split_at(number_chars.as_slice(), '|');
    if ni.len() < 2 {
        return None;
    }
    assert(ni@[0]@ == split_at_char(number@, '|')[0]);
    assert(ni@[1]@ == split_at_char(number@, '|')[1]);
    let ms = split_at(ni[0].as_slice(), ';');
    let ghost mss = split_at_char(ni@[0]@, ';');
    let mut out: Vec<char> = Vec::new();
    let mut k: usize = 0;
    assert(mss.take(0) =~= Seq::<Seq<char>>::empty());
    while k < ms.len()
        invariant
            views(ms@) == mss,
            views(lines@) == ls,
            ls == split_at_char(stub@, '\n'),
            mss == split_at_char(split_at_char(number@, '|')[0], ';'),
            k <= ms@.len(),
            matches_print(mss.take(k as int), play@, ls, basketball) == Some(out@),
        decreases ms@.len() - k,
    {
        assert(mss.take(k + 1).drop_last() =~= mss.take(k as int));
        assert(mss.take(k + 1).last() == mss[k as int]);
        assert(ms@[k as int]@ == mss[k as int]);
        if 6 + 3 * (k as u128) >= lines.len() as u128 {
            proof {
                lemma_matches_none(mss, play@, ls, basketball, k + 1);
            }
            return None;
        }
        let line = 6 + 3 * k;
        assert(lines@[line as int]@ == ls[line as int]);
        assert(lines@[line - 2]@ == ls[line - 2]);
        let t = match match_print_exec(ms[k].as_slice(), play, lines[line - 2].as_slice(), lines[line].as_slice(), basketball) {
            Some(t) => t,
            None => {
                proof {
                    lemma_matches_none(mss, play@, ls, basketball, k + 1);
                }
                return None;
            },
        };
        let ghost before = out@;
        if k > 0 {
            out.push(';');
        }
        push_chars(&mut out, t.as_slice());
        proof {
            if k == 0 {
                assert(before =~= Seq::<char>::empty());
                assert(out@ =~= t@);
            } else {
                assert(out@ =~= before + seq![';'] + t@);
            }
        }
        k = k + 1;
    }
    assert(mss.take(mss.len() as int) =~= mss);
    out.push('|');
    push_chars(&mut out, ni[1].as_slice());
    Some(out)
}

/// Single-match bets on win, draw or loss (with or without a handicap).
pub struct DrawJcd0101;

impl Print for DrawJcd0101 {
    open spec fn printable(&self, number: Seq<char>, stub: Seq<char>) -> bool {
        single_match_print(RateLabels::WinDrawLose, number, stub) is Some
    }

    open spec fn print_number(&self, number: Seq<char>, stub: Seq<char>) -> Seq<char> {
        single_match_print(RateLabels::WinDrawLose, number, stub)->0
    }

    /// The ticket number `code:options|1*1` with the rates printed on the
    /// seventh line of the stub: `code:option@rate,...|1*1`.
    fn get_print_number(&self, number: &str, stub: &str) -> (r: String) {
        let v = single_match_print_exec(RateLabels::WinDrawLose, number, stub);
        match v {
            Some(v) => string_of(&v),
            None => String::new(),
        }
    }
}

/// Single-match bets on the total number of goals.
pub struct DrawJcd0301;

impl Print for DrawJcd0301 {
    open spec fn printable(&self, number: Seq<char>, stub: Seq<char>) -> bool {
        single_match_print(RateLabels::Goals, number, stub) is Some
    }

    open spec fn print_number(&self, number: Seq<char>, stub: Seq<char>) -> Seq<char> {
        single_match_print(RateLabels::Goals, number, stub)->0
    }

    /// The ticket number `code:options|1*1` with the rates printed on the
    /// seventh line of the stub: `code:option@rate,...|1*1`.
    fn get_print_number(&self, number: &str, stub: &str) -> (r: String) {
        let v = single_match_print_exec(RateLabels::Goals, number, stub);
        match v {
            Some(v) => string_of(&v),
            None => String::new(),
        }
    }
}

/// Single-match bets on the score.
pub struct DrawJcd0401;

impl Print for DrawJcd0401 {
    open spec fn printable(&self, number: Seq<char>, stub: Seq<char>) -> bool {
        single_match_print(RateLabels::Score, number, stub) is Some
    }

    open spec fn print_number(&self, number: Seq<char>, stub: Seq<char>) -> Seq<char> {
        single_match_print(RateLabels::Score, number, stub)->0
    }

    /// The ticket number `code:options|1*1` with the rates printed on the
    /// seventh line of the stub: `code:option@rate,...|1*1`.
    fn get_print_number(&self, number: &str, stub: &str) -> (r: String) {
        let v = single_match_print_exec(RateLabels::Score, number, stub);
        match v {
            Some(v) => string_of(&v),
            None => String::new(),
        }
    }
}

/// Single-match bets on the half-time and full-time results.
pub struct DrawJcd0501;

impl Print for DrawJcd0501 {
    open spec fn printable(&self, number: Seq<char>, stub: Seq<char>) -> bool {
        single_match_print(RateLabels::HalfFull, number, stub) is Some
    }

    open spec fn print_number(&self, number: Seq<char>, stub: Seq<char>) -> Seq<char> {
        single_match_print(RateLabels::HalfFull, number, stub)->0
    }

    /// The ticket number `code:options|1*1` with the rates printed on the
    /// seventh line of the stub: `code:option@rate,...|1*1`.
    fn get_print_number(&self, number: &str, stub: &str) -> (r: String) {
        let v = single_match_print_exec(RateLabels::HalfFull, number, stub);
        match v {
            Some(v) => string_of(&v),
            None => String::new(),
        }
    }
}

/// Parlays on win, draw or loss.
pub struct DrawJcc0102;

impl Print for DrawJcc0102 {
    open spec fn printable(&self, number: Seq<char>, stub: Seq<char>) -> bool {
        parlay_print(number, seq!['0', '1'], stub, false) is Some
    }

    open spec fn print_number(&self, number: Seq<char>, stub: Seq<char>) -> Seq<char> {
        parlay_print(number, seq!['0', '1'], stub, false)->0
    }

    /// The parlay number with the rates printed on the stub, match after
    /// match.
    fn get_print_number(&self, number: &str, stub: &str) -> (r: String) {
        let play = vec!['0', '1'];
        assert(play@ =~= seq!['0', '1']);
        let v = parlay_print_exec(number, play.as_slice(), stub, false);
        match v {
            Some(v) => string_of(&v),
            None => String::new(),
        }
    }
}

/// Parlays on win, draw or loss against a handicap.
pub struct DrawJcc0202;

impl Print for DrawJcc0202 {
    open spec fn printable(&self, number: Seq<char>, stub: Seq<char>) -> bool {
        parlay_print(number, seq!['0', '2'], stub, false) is Some
    }

    open spec fn print_number(&self, number: Seq<char>, stub: Seq<char>) -> Seq<char> {
        parlay_print(number, seq!['0', '2'], stub, false)->0
    }

    /// The parlay number with the rates printed on the stub, match after
    /// match.
    fn get_print_number(&self, number: &str, stub: &str) -> (r: String) {
        let play = vec!['0', '2'];
        assert(play@ =~= seq!['0', '2']);
        let v = parlay_print_exec(number, play.as_slice(), stub, false);
        match v {
            Some(v) => string_of(&v),
            None => String::new(),
        }
    }
}

/// Parlays on the total number of goals.
pub struct DrawJcc0302;

impl Print for DrawJcc0302 {
    open spec fn printable(&self, number: Seq<char>, stub: Seq<char>) -> bool {
        parlay_print(number, seq!['0', '3'], stub, false) is Some
    }

    open spec fn print_number(&self, number: Seq<char>, stub: Seq<char>) -> Seq<char> {
        parlay_print(number, seq!['0', '3'], stub, false)->0
    }

    /// The parlay number with the rates printed on the stub, match after
    /// match.
    fn get_print_number(&self, number: &str, stub: &str) -> (r: String) {
        let play = vec!['0', '3'];
        assert(play@ =~= seq!['0', '3']);
        let v = parlay_print_exec(number, play.as_slice(), stub, false);
        match v {
            Some(v) => string_of(&v),
            None => String::new(),
        }
    }
}

/// Parlays on the score.
pub struct DrawJcc0402;

impl Print for DrawJcc0402 {
    open spec fn printable(&self, number: Seq<char>, stub: Seq<char>) -> bool {
        parlay_print(number, seq!['0', '4'], stub, false) is Some
    }

    open spec fn print_number(&self, number: Seq<char>, stub: Seq<char>) -> Seq<char> {
        parlay_print(number, seq!['0', '4'], stub, false)->0
    }

    /// The parlay number with the rates printed on the stub, match after
    /// match.
    fn get_print_number(&self, number: &str, stub: &str) -> (r: String) {
        let play = vec!['0', '4'];
        assert(play@ =~= seq!['0', '4']);
        let v = parlay_print_exec(number, play.as_slice(), stub, false);
        match v {
            Some(v) => string_of(&v),
            None => String::new(),
        }
    }
}

/// Parlays on the half-time and full-time results.
pub struct DrawJcc0502;

impl Print for DrawJcc0502 {
    open spec fn printable(&self, number: Seq<char>, stub: Seq<char>) -> bool {
        parlay_print(number, seq!['0', '5'], stub, false) is Some
    }

    open spec fn print_number(&self, number: Seq<char>, stub: Seq<char>) -> Seq<char> {
        parlay_print(number, seq!['0', '5'], stub, false)->0
    }

    /// The parlay number with the rates printed on the stub, match after
    /// match.
    fn get_print_number(&self, number: &str, stub: &str) -> (r: String) {
        let play = vec!['0', '5'];
        assert(play@ =~= seq!['0', '5']);
        let v = parlay_print_exec(number, play.as_slice(), stub, false);
        match v {
            Some(v) => string_of(&v),
            None => String::new(),
        }
    }
}

/// Parlays on plays named by each match.
pub struct DrawJcc1002;

impl Print for DrawJcc1002 {
    open spec fn printable(&self, number: Seq<char>, stub: Seq<char>) -> bool {
        parlay_print(number, seq!['1', '0'], stub, false) is Some
    }

    open spec fn print_number(&self, number: Seq<char>, stub: Seq<char>) -> Seq<char> {
        parlay_print(number, seq!['1', '0'], stub, false)->0
    }

    /// The parlay number with the rates printed on the stub, match after
    /// match.
    fn get_print_number(&self, number: &str, stub: &str) -> (r: String) {
        let play = vec!['1', '0'];
        assert(play@ =~= seq!['1', '0']);
        let v = parlay_print_exec(number, play.as_slice(), stub, false);
        match v {
            Some(v) => string_of(&v),
            None => String::new(),
        }
    }
}

/// Bets on basketball win or loss.
pub struct DrawJcl0102;

impl Print for DrawJcl0102 {
    open spec fn printable(&self, number: Seq<char>, stub: Seq<char>) -> bool {
        parlay_print(number, seq!['0', '1'], stub, true) is Some
    }

    open spec fn print_number(&self, number: Seq<char>, stub: Seq<char>) -> Seq<char> {
        parlay_print(number, seq!['0', '1'], stub, true)->0
    }

    /// The ticket number with the rates printed on the stub, match after
    /// match; handicaps and preset totals are read from each match's time
    /// line.
    fn get_print_number(&self, number: &str, stub: &str) -> (r: String) {
        let play = vec!['0', '1'];
        assert(play@ =~= seq!['0', '1']);
        let v = parlay_print_exec(number, play.as_slice(), stub, true);
        match v {
            Some(v) => string_of(&v),
            None => String::new(),
        }
    }
}

/// Bets on basketball win or loss against a handicap.
pub struct DrawJcl0202;

impl Print for DrawJcl0202 {
    open spec fn printable(&self, number: Seq<char>, stub: Seq<char>) -> bool {
        parlay_print(number, seq!['0', '2'], stub, true) is Some
    }

    open spec fn print_number(&self, number: Seq<char>, stub: Seq<char>) -> Seq<char> {
        parlay_print(number, seq!['0', '2'], stub, true)->0
    }

    /// The ticket number with the rates printed on the stub, match after
    /// match; handicaps and preset totals are read from each match's time
    /// line.
    fn get_print_number(&self, number: &str, stub: &str) -> (r: String) {
        let play = vec!['0', '2'];
        assert(play@ =~= seq!['0', '2']);
        let v = parlay_print_exec(number, play.as_slice(), stub, true);
        match v {
            Some(v) => string_of(&v),
            None => String::new(),
        }
    }
}

/// Bets on the basketball winning margin.
pub struct DrawJcl0302;

impl Print for DrawJcl0302 {
    open spec fn printable(&self, number: Seq<char>, stub: Seq<char>) -> bool {
        parlay_print(number, seq!['0', '3'], stub, true) is Some
    }

    open spec fn print_number(&self, number: Seq<char>, stub: Seq<char>) -> Seq<char> {
        parlay_print(number, seq!['0', '3'], stub, true)->0
    }

    /// The ticket number with the rates printed on the stub, match after
    /// match; handicaps and preset totals are read from each match's time
    /// line.
    fn get_print_number(&self, number: &str, stub: &str) -> (r: String) {
        let play = vec!['0', '3'];
        assert(play@ =~= seq!['0', '3']);
        let v = parlay_print_exec(number, play.as_slice(), stub, true);
        match v {
            Some(v) => string_of(&v),
            None => String::new(),
        }
    }
}

/// Bets on basketball total points over or under a preset total.
pub struct DrawJcl0402;

impl Print for DrawJcl0402 {
    open spec fn printable(&self, number: Seq<char>, stub: Seq<char>) -> bool {
        parlay_print(number, seq!['0', '4'], stub, true) is Some
    }

    open spec fn print_number(&self, number: Seq<char>, stub: Seq<char>) -> Seq<char> {
        parlay_print(number, seq!['0', '4'], stub, true)->0
    }

    /// The ticket number with the rates printed on the stub, match after
    /// match; handicaps and preset totals are read from each match's time
    /// line.
    fn get_print_number(&self, number: &str, stub: &str) -> (r: String) {
        let play = vec!['0', '4'];
        assert(play@ =~= seq!['0', '4']);
        let v = parlay_print_exec(number, play.as_slice(), stub, true);
        match v {
            Some(v) => string_of(&v),
            None => String::new(),
        }
    }
}

/// Bets on basketball plays named by each match.
pub struct DrawJcl1002;

impl Print for DrawJcl1002 {
    open spec fn printable(&self, number: Seq<char>, stub: Seq<char>) -> bool {
        parlay_print(number, seq!['1', '0'], stub, true) is Some
    }

    open spec fn print_number(&self, number: Seq<char>, stub: Seq<char>) -> Seq<char> {
        parlay_print(number, seq!['1', '0'], stub, true)->0
    }

    /// The ticket number with the rates printed on the stub, match after
    /// match; handicaps and preset totals are read from each match's time
    /// line.
    fn get_print_number(&self, number: &str, stub: &str) -> (r: String) {
        let play = vec!['1', '0'];
        assert(play@ =~= seq!['1', '0']);
        let v = parlay_print_exec(number, play.as_slice(), stub, true);
        match v {
            Some(v) => string_of(&v),
            None => String::new(),
        }
    }
}

proof fn lemma_one_digit_value(c: char)
    requires
        '0' <= c <= '9',
    ensures
        int_text_value(seq![c]) == c as int - '0' as int,
{
    let p = seq![c];
    assert(p[0] != '-' && p[0] != '+');
    assert(unsigned_part(p) == p);
    assert(p.drop_last() =~= Seq::<char>::empty());
    assert(digits_value(Seq::<char>::empty()) == 0);
    assert(p.last() == c);
    assert(digits_value(p) == c as int - '0' as int);
}

/// Every option that a football ticket prints a label for can be bet on:
/// the keys of the win/draw/loss, total-goals, score and half-time/full-time
/// label tables are all accepted options of their kind.
pub proof fn lemma_football_labels_allowed()
    ensures
        forall|i: int| 0 <= i < label_table(RateLabels::WinDrawLose).len() ==> option_allowed(JcOption::WinDrawLose, #[trigger] label_table(RateLabels::WinDrawLose)[i].1),
        forall|i: int| 0 <= i < label_table(RateLabels::Goals).len() ==> option_allowed(JcOption::Goals, #[trigger] label_table(RateLabels::Goals)[i].1),
        forall|i: int| 0 <= i < label_table(RateLabels::Score).len() ==> option_allowed(JcOption::Score, #[trigger] label_table(RateLabels::Score)[i].1),
        forall|i: int| 0 <= i < label_table(RateLabels::HalfFull).len() ==> option_allowed(JcOption::HalfFull, #[trigger] label_table(RateLabels::HalfFull)[i].1),
{
    {
        reveal_strlit("0");
        reveal_strlit("1");
        reveal_strlit("3");
        let t = label_table(RateLabels::WinDrawLose);
        assert(t[0].1 == "3"@);
        assert("3"@ =~= seq!['3']);
        assert(t[1].1 == "1"@);
        assert("1"@ =~= seq!['1']);
        assert(t[2].1 == "0"@);
        assert("0"@ =~= seq!['0']);
        assert forall|i: int| 0 <= i < t.len() implies option_allowed(JcOption::WinDrawLose, #[trigger] t[i].1) by {
            assert(i == 0 || i == 1 || i == 2);
        }
    }
    {
        reveal_strlit("0");
        reveal_strlit("1");
        reveal_strlit("2");
        reveal_strlit("3");
        reveal_strlit("4");
        reveal_strlit("5");
        reveal_strlit("6");
        reveal_strlit("7");
        let t = label_table(RateLabels::Goals);
        assert(t[0].1 == "0"@);
        assert("0"@ =~= seq!['0']);
        assert(t[1].1 == "1"@);
        assert("1"@ =~= seq!['1']);
        assert(t[2].1 == "2"@);
        assert("2"@ =~= seq!['2']);
        assert(t[3].1 == "3"@);
        assert("3"@ =~= seq!['3']);
        assert(t[4].1 == "4"@);
        assert("4"@ =~= seq!['4']);
        assert(t[5].1 == "5"@);
        assert("5"@ =~= seq!['5']);
        assert(t[6].1 == "6"@);
        assert("6"@ =~= seq!['6']);
        assert(t[7].1 == "7"@);
        assert("7"@ =~= seq!['7']);
        lemma_one_digit_value('0');
        lemma_one_digit_value('1');
        lemma_one_digit_value('2');
        lemma_one_digit_value('3');
        lemma_one_digit_value('4');
        lemma_one_digit_value('5');
        lemma_one_digit_value('6');
        lemma_one_digit_value('7');
        assert forall|i: int| 0 <= i < t.len() implies option_allowed(JcOption::Goals, #[trigger] t[i].1) by {
            assert(i == 0 || i == 1 || i == 2 || i == 3 || i == 4 || i == 5 || i == 6 || i == 7);
        }
    }
    {
        reveal_strlit("00");
        reveal_strlit("01");
        reveal_strlit("02");
        reveal_strlit("03");
        reveal_strlit("04");
        reveal_strlit("05");
        reveal_strlit("09");
        reveal_strlit("10");
        reveal_strlit("11");
        reveal_strlit("12");
        reveal_strlit("13");
        reveal_strlit("14");
        reveal_strlit("15");
        reveal_strlit("20");
        reveal_strlit("21");
        reveal_strlit("22");
        reveal_strlit("23");
        reveal_strlit("24");
        reveal_strlit("25");
        reveal_strlit("30");
        reveal_strlit("31");
        reveal_strlit("32");
        reveal_strlit("33");
        reveal_strlit("40");
        reveal_strlit("41");
        reveal_strlit("42");
        reveal_strlit("50");
        reveal_strlit("51");
        reveal_strlit("52");
        reveal_strlit("90");
        reveal_strlit("99");
        let t = label_table(RateLabels::Score);
        assert(t[0].1 == "10"@);
        assert("10"@ =~= seq!['1', '0']);
        assert(t[1].1 == "20"@);
        assert("20"@ =~= seq!['2', '0']);
        assert(t[2].1 == "21"@);
        assert("21"@ =~= seq!['2', '1']);
        assert(t[3].1 == "30"@);
        assert("30"@ =~= seq!['3', '0']);
        assert(t[4].1 == "31"@);
        assert("31"@ =~= seq!['3', '1']);
        assert(t[5].1 == "32"@);
        assert("32"@ =~= seq!['3', '2']);
        assert(t[6].1 == "40"@);
        assert("40"@ =~= seq!['4', '0']);
        assert(t[7].1 == "41"@);
        assert("41"@ =~= seq!['4', '1']);
        assert(t[8].1 == "42"@);
        assert("42"@ =~= seq!['4', '2']);
        assert(t[9].1 == "50"@);
        assert("50"@ =~= seq!['5', '0']);
        assert(t[10].1 == "51"@);
        assert("51"@ =~= seq!['5', '1']);
        assert(t[11].1 == "52"@);
        assert("52"@ =~= seq!['5', '2']);
        assert(t[12].1 == "90"@);
        assert("90"@ =~= seq!['9', '0']);
        assert(t[13].1 == "00"@);
        assert("00"@ =~= seq!['0', '0']);
        assert(t[14].1 == "11"@);
        assert("11"@ =~= seq!['1', '1']);
        assert(t[15].1 == "22"@);
        assert("22"@ =~= seq!['2', '2']);
        assert(t[16].1 == "33"@);
        assert("33"@ =~= seq!['3', '3']);
        assert(t[17].1 == "99"@);
        assert("99"@ =~= seq!['9', '9']);
        assert(t[18].1 == "01"@);
        assert("01"@ =~= seq!['0', '1']);
        assert(t[19].1 == "02"@);
        assert("02"@ =~= seq!['0', '2']);
        assert(t[20].1 == "12"@);
        assert("12"@ =~= seq!['1', '2']);
        assert(t[21].1 == "03"@);
        assert("03"@ =~= seq!['0', '3']);
        assert(t[22].1 == "13"@);
        assert("13"@ =~= seq!['1', '3']);
        assert(t[23].1 == "23"@);
        assert("23"@ =~= seq!['2', '3']);
        assert(t[24].1 == "04"@);
        assert("04"@ =~= seq!['0', '4']);
        assert(t[25].1 == "14"@);
        assert("14"@ =~= seq!['1', '4']);
        assert(t[26].1 == "24"@);
        assert("24"@ =~= seq!['2', '4']);
        assert(t[27].1 == "05"@);
        assert("05"@ =~= seq!['0', '5']);
        assert(t[28].1 == "15"@);
        assert("15"@ =~= seq!['1', '5']);
        assert(t[29].1 == "25"@);
        assert("25"@ =~= seq!['2', '5']);
        assert(t[30].1 == "09"@);
        assert("09"@ =~= seq!['0', '9']);
        assert forall|i: int| 0 <= i < t.len() implies option_allowed(JcOption::Score, #[trigger] t[i].1) by {
            assert(i == 0 || i == 1 || i == 2 || i == 3 || i == 4 || i == 5 || i == 6 || i == 7 || i == 8 || i == 9 || i == 10 || i == 11 || i == 12 || i == 13 || i == 14 || i == 15 || i == 16 || i == 17 || i == 18 || i == 19 || i == 20 || i == 21 || i == 22 || i == 23 || i == 24 || i == 25 || i == 26 || i == 27 || i == 28 || i == 29 || i == 30);
        }
    }
    {
        reveal_strlit("00");
        reveal_strlit("01");
        reveal_strlit("03");
        reveal_strlit("10");
        reveal_strlit("11");
        reveal_strlit("13");
        reveal_strlit("30");
        reveal_strlit("31");
        reveal_strlit("33");
        let t = label_table(RateLabels::HalfFull);
        assert(t[0].1 == "33"@);
        assert("33"@ =~= seq!['3', '3']);
        assert(t[1].1 == "31"@);
        assert("31"@ =~= seq!['3', '1']);
        assert(t[2].1 == "30"@);
        assert("30"@ =~= seq!['3', '0']);
        assert(t[3].1 == "13"@);
        assert("13"@ =~= seq!['1', '3']);
        assert(t[4].1 == "11"@);
        assert("11"@ =~= seq!['1', '1']);
        assert(t[5].1 == "10"@);
        assert("10"@ =~= seq!['1', '0']);
        assert(t[6].1 == "03"@);
        assert("03"@ =~= seq!['0', '3']);
        assert(t[7].1 == "01"@);
        assert("01"@ =~= seq!['0', '1']);
        assert(t[8].1 == "00"@);
        assert("00"@ =~= seq!['0', '0']);
        assert forall|i: int| 0 <= i < t.len() implies option_allowed(JcOption::HalfFull, #[trigger] t[i].1) by {
            assert(i == 0 || i == 1 || i == 2 || i == 3 || i == 4 || i == 5 || i == 6 || i == 7 || i == 8);
        }
    }
}

/// Every final score (in tenths of goals, not negative) wins with an option
/// that the score label table names, so a score ticket's winning option is
/// always printed with its label.
pub proof fn lemma_score_option_labelled(home: int, away: int)
    requires
        0 <= home,
        0 <= away,
    ensures
        exists|i: int| 0 <= i < label_table(RateLabels::Score).len() && #[trigger] label_table(RateLabels::Score)[i].1 == score_option(home, away),
{
    reveal_strlit("00");
    reveal_strlit("01");
    reveal_strlit("02");
    reveal_strlit("03");
    reveal_strlit("04");
    reveal_strlit("05");
    reveal_strlit("09");
    reveal_strlit("10");
    reveal_strlit("11");
    reveal_strlit("12");
    reveal_strlit("13");
    reveal_strlit("14");
    reveal_strlit("15");
    reveal_strlit("20");
    reveal_strlit("21");
    reveal_strlit("22");
    reveal_strlit("23");
    reveal_strlit("24");
    reveal_strlit("25");
    reveal_strlit("30");
    reveal_strlit("31");
    reveal_strlit("32");
    reveal_strlit("33");
    reveal_strlit("40");
    reveal_strlit("41");
    reveal_strlit("42");
    reveal_strlit("50");
    reveal_strlit("51");
    reveal_strlit("52");
    reveal_strlit("90");
    reveal_strlit("99");
    let t = label_table(RateLabels::Score);
    let p = score_option(home, away);
    lemma_score_option_allowed(home, away);
    if p[0] == '1' && p[1] == '0' {
        assert(p =~= seq!['1', '0']);
        assert(t[0].1 == p);
    } else if p[0] == '2' && p[1] == '0' {
        assert(p =~= seq!['2', '0']);
        assert(t[1].1 == p);
    } else if p[0] == '2' && p[1] == '1' {
        assert(p =~= seq!['2', '1']);
        assert(t[2].1 == p);
    } else if p[0] == '3' && p[1] == '0' {
        assert(p =~= seq!['3', '0']);
        assert(t[3].1 == p);
    } else if p[0] == '3' && p[1] == '1' {
        assert(p =~= seq!['3', '1']);
        assert(t[4].1 == p);
    } else if p[0] == '3' && p[1] == '2' {
        assert(p =~= seq!['3', '2']);
        assert(t[5].1 == p);
    } else if p[0] == '4' && p[1] == '0' {
        assert(p =~= seq!['4', '0']);
        assert(t[6].1 == p);
    } else if p[0] == '4' && p[1] == '1' {
        assert(p =~= seq!['4', '1']);
        assert(t[7].1 == p);
    } else if p[0] == '4' && p[1] == '2' {
        assert(p =~= seq!['4', '2']);
        assert(t[8].1 == p);
    } else if p[0] == '5' && p[1] == '0' {
        assert(p =~= seq!['5', '0']);
        assert(t[9].1 == p);
    } else if p[0] == '5' && p[1] == '1' {
        assert(p =~= seq!['5', '1']);
        assert(t[10].1 == p);
    } else if p[0] == '5' && p[1] == '2' {
        assert(p =~= seq!['5', '2']);
        assert(t[11].1 == p);
    } else if p[0] == '9' && p[1] == '0' {
        assert(p =~= seq!['9', '0']);
        assert(t[12].1 == p);
    } else if p[0] == '0' && p[1] == '0' {
        assert(p =~= seq!['0', '0']);
        assert(t[13].1 == p);
    } else if p[0] == '1' && p[1] == '1' {
        assert(p =~= seq!['1', '1']);
        assert(t[14].1 == p);
    } else if p[0] == '2' && p[1] == '2' {
        assert(p =~= seq!['2', '2']);
        assert(t[15].1 == p);
    } else if p[0] == '3' && p[1] == '3' {
        assert(p =~= seq!['3', '3']);
        assert(t[16].1 == p);
    } else if p[0] == '9' && p[1] == '9' {
        assert(p =~= seq!['9', '9']);
        assert(t[17].1 == p);
    } else if p[0] == '0' && p[1] == '1' {
        assert(p =~= seq!['0', '1']);
        assert(t[18].1 == p);
    } else if p[0] == '0' && p[1] == '2' {
        assert(p =~= seq!['0', '2']);
        assert(t[19].1 == p);
    } else if p[0] == '1' && p[1] == '2' {
        assert(p =~= seq!['1', '2']);
        assert(t[20].1 == p);
    } else if p[0] == '0' && p[1] == '3' {
        assert(p =~= seq!['0', '3']);
        assert(t[21].1 == p);
    } else if p[0] == '1' && p[1] == '3' {
        assert(p =~= seq!['1', '3']);
        assert(t[22].1 == p);
    } else if p[0] == '2' && p[1] == '3' {
        assert(p =~= seq!['2', '3']);
        assert(t[23].1 == p);
    } else if p[0] == '0' && p[1] == '4' {
        assert(p =~= seq!['0', '4']);
        assert(t[24].1 == p);
    } else if p[0] == '1' && p[1] == '4' {
        assert(p =~= seq!['1', '4']);
        assert(t[25].1 == p);
    } else if p[0] == '2' && p[1] == '4' {
        assert(p =~= seq!['2', '4']);
        assert(t[26].1 == p);
    } else if p[0] == '0' && p[1] == '5' {
        assert(p =~= seq!['0', '5']);
        assert(t[27].1 == p);
    } else if p[0] == '1' && p[1] == '5' {
        assert(p =~= seq!['1', '5']);
        assert(t[28].1 == p);
    } else if p[0] == '2' && p[1] == '5' {
        assert(p =~= seq!['2', '5']);
        assert(t[29].1 == p);
    } else if p[0] == '0' && p[1] == '9' {
        assert(p =~= seq!['0', '9']);
        assert(t[30].1 == p);
    }
}

/// Every basketball result wins with a margin option that the margin label
/// table names: home wins by 11 to 15 points is `03`, labelled `(主11-15)`,
/// and so on for each band and side.
pub proof fn lemma_margin_option_labelled(home: int, away: int)
    ensures
        exists|i: int| 0 <= i < label_table(RateLabels::Margin).len() && #[trigger] label_table(RateLabels::Margin)[i].1 == margin_option(home, away),
{
    reveal_strlit("01");
    reveal_strlit("02");
    reveal_strlit("03");
    reveal_strlit("04");
    reveal_strlit("05");
    reveal_strlit("06");
    reveal_strlit("11");
    reveal_strlit("12");
    reveal_strlit("13");
    reveal_strlit("14");
    reveal_strlit("15");
    reveal_strlit("16");
    let t = label_table(RateLabels::Margin);
    let p = margin_option(home, away);
    if p == seq!['0', '1'] {
        assert("01"@ =~= p);
        assert(t[0].1 == p);
    } else if p == seq!['0', '2'] {
        assert("02"@ =~= p);
        assert(t[1].1 == p);
    } else if p == seq!['0', '3'] {
        assert("03"@ =~= p);
        assert(t[2].1 == p);
    } else if p == seq!['0', '4'] {
        assert("04"@ =~= p);
        assert(t[3].1 == p);
    } else if p == seq!['0', '5'] {
        assert("05"@ =~= p);
        assert(t[4].1 == p);
    } else if p == seq!['0', '6'] {
        assert("06"@ =~= p);
        assert(t[5].1 == p);
    } else if p == seq!['1', '1'] {
        assert("11"@ =~= p);
        assert(t[6].1 == p);
    } else if p == seq!['1', '2'] {
        assert("12"@ =~= p);
        assert(t[7].1 == p);
    } else if p == seq!['1', '3'] {
        assert("13"@ =~= p);
        assert(t[8].1 == p);
    } else if p == seq!['1', '4'] {
        assert("14"@ =~= p);
        assert(t[9].1 == p);
    } else if p == seq!['1', '5'] {
        assert("15"@ =~= p);
        assert(t[10].1 == p);
    } else if p == seq!['1', '6'] {
        assert("16"@ =~= p);
        assert(t[11].1 == p);
    }
}

/// The margin label table pairs each band with its margin option: `(主11-15)`
/// is the option of a home win by 11 to 15 points, `(客26)` of an away win by
/// more than 25, and so on.
pub proof fn lemma_margin_labels_bands()
    ensures
        label_table(RateLabels::Margin)[0].1 == margin_option(5, 0),
        label_table(RateLabels::Margin)[1].1 == margin_option(10, 0),
        label_table(RateLabels::Margin)[2].1 == margin_option(15, 0),
        label_table(RateLabels::Margin)[3].1 == margin_option(20, 0),
        label_table(RateLabels::Margin)[4].1 == margin_option(25, 0),
        label_table(RateLabels::Margin)[5].1 == margin_option(26, 0),
        label_table(RateLabels::Margin)[6].1 == margin_option(0, 5),
        label_table(RateLabels::Margin)[7].1 == margin_option(0, 10),
        label_table(RateLabels::Margin)[8].1 == margin_option(0, 15),
        label_table(RateLabels::Margin)[9].1 == margin_option(0, 20),
        label_table(RateLabels::Margin)[10].1 == margin_option(0, 25),
        label_table(RateLabels::Margin)[11].1 == margin_option(0, 26),
{
    reveal_strlit("01");
    reveal_strlit("02");
    reveal_strlit("03");
    reveal_strlit("04");
    reveal_strlit("05");
    reveal_strlit("06");
    reveal_strlit("11");
    reveal_strlit("12");
    reveal_strlit("13");
    reveal_strlit("14");
    reveal_strlit("15");
    reveal_strlit("16");
    assert("01"@ =~= seq!['0', '1']);
    assert("02"@ =~= seq!['0', '2']);
    assert("03"@ =~= seq!['0', '3']);
    assert("04"@ =~= seq!['0', '4']);
    assert("05"@ =~= seq!['0', '5']);
    assert("06"@ =~= seq!['0', '6']);
    assert("11"@ =~= seq!['1', '1']);
    assert("12"@ =~= seq!['1', '2']);
    assert("13"@ =~= seq!['1', '3']);
    assert("14"@ =~= seq!['1', '4']);
    assert("15"@ =~= seq!['1', '5']);
    assert("16"@ =~= seq!['1', '6']);
}

/// The label of an exact score is the score itself, `(home:away)`, and the
/// label of a number of goals is that number in brackets: each label of the
/// score and total-goals tables shows the option it is paired with (the
/// three other-result options are labelled in words).
pub proof fn lemma_labels_show_options()
    ensures
        forall|i: int|
            0 <= i < label_table(RateLabels::Score).len() && (#[trigger] label_table(RateLabels::Score)[i]).1[0] != '9'
                && label_table(RateLabels::Score)[i].1[1] != '9' ==> label_table(RateLabels::Score)[i].0 == seq![
                '(',
                label_table(RateLabels::Score)[i].1[0],
                ':',
                label_table(RateLabels::Score)[i].1[1],
                ')',
            ],
        forall|i: int|
            0 <= i < label_table(RateLabels::Goals).len() ==> (#[trigger] label_table(RateLabels::Goals)[i]).0 == seq![
                '(',
                label_table(RateLabels::Goals)[i].1[0],
                ')',
            ] && label_table(RateLabels::Goals)[i].1.len() == 1,
{
    reveal_strlit("(0)");
    reveal_strlit("(0:0)");
    reveal_strlit("(0:1)");
    reveal_strlit("(0:2)");
    reveal_strlit("(0:3)");
    reveal_strlit("(0:4)");
    reveal_strlit("(0:5)");
    reveal_strlit("(1)");
    reveal_strlit("(1:0)");
    reveal_strlit("(1:1)");
    reveal_strlit("(1:2)");
    reveal_strlit("(1:3)");
    reveal_strlit("(1:4)");
    reveal_strlit("(1:5)");
    reveal_strlit("(2)");
    reveal_strlit("(2:0)");
    reveal_strlit("(2:1)");
    reveal_strlit("(2:2)");
    reveal_strlit("(2:3)");
    reveal_strlit("(2:4)");
    reveal_strlit("(2:5)");
    reveal_strlit("(3)");
    reveal_strlit("(3:0)");
    reveal_strlit("(3:1)");
    reveal_strlit("(3:2)");
    reveal_strlit("(3:3)");
    reveal_strlit("(4)");
    reveal_strlit("(4:0)");
    reveal_strlit("(4:1)");
    reveal_strlit("(4:2)");
    reveal_strlit("(5)");
    reveal_strlit("(5:0)");
    reveal_strlit("(5:1)");
    reveal_strlit("(5:2)");
    reveal_strlit("(6)");
    reveal_strlit("(7)");
    reveal_strlit("(平其它)");
    reveal_strlit("(胜其它)");
    reveal_strlit("(负其它)");
    reveal_strlit("0");
    reveal_strlit("00");
    reveal_strlit("01");
    reveal_strlit("02");
    reveal_strlit("03");
    reveal_strlit("04");
    reveal_strlit("05");
    reveal_strlit("09");
    reveal_strlit("1");
    reveal_strlit("10");
    reveal_strlit("11");
    reveal_strlit("12");
    reveal_strlit("13");
    reveal_strlit("14");
    reveal_strlit("15");
    reveal_strlit("2");
    reveal_strlit("20");
    reveal_strlit("21");
    reveal_strlit("22");
    reveal_strlit("23");
    reveal_strlit("24");
    reveal_strlit("25");
    reveal_strlit("3");
    reveal_strlit("30");
    reveal_strlit("31");
    reveal_strlit("32");
    reveal_strlit("33");
    reveal_strlit("4");
    reveal_strlit("40");
    reveal_strlit("41");
    reveal_strlit("42");
    reveal_strlit("5");
    reveal_strlit("50");
    reveal_strlit("51");
    reveal_strlit("52");
    reveal_strlit("6");
    reveal_strlit("7");
    reveal_strlit("90");
    reveal_strlit("99");
    let t = label_table(RateLabels::Score);
    let u = label_table(RateLabels::Goals);
    assert(t[0] == ("(1:0)"@, "10"@));
    assert("10"@ =~= seq!['1', '0']);
    assert("(1:0)"@ =~= seq!['(', '1', ':', '0', ')']);
    assert(t[1] == ("(2:0)"@, "20"@));
    assert("20"@ =~= seq!['2', '0']);
    assert("(2:0)"@ =~= seq!['(', '2', ':', '0', ')']);
    assert(t[2] == ("(2:1)"@, "21"@));
    assert("21"@ =~= seq!['2', '1']);
    assert("(2:1)"@ =~= seq!['(', '2', ':', '1', ')']);
    assert(t[3] == ("(3:0)"@, "30"@));
    assert("30"@ =~= seq!['3', '0']);
    assert("(3:0)"@ =~= seq!['(', '3', ':', '0', ')']);
    assert(t[4] == ("(3:1)"@, "31"@));
    assert("31"@ =~= seq!['3', '1']);
    assert("(3:1)"@ =~= seq!['(', '3', ':', '1', ')']);
    assert(t[5] == ("(3:2)"@, "32"@));
    assert("32"@ =~= seq!['3', '2']);
    assert("(3:2)"@ =~= seq!['(', '3', ':', '2', ')']);
    assert(t[6] == ("(4:0)"@, "40"@));
    assert("40"@ =~= seq!['4', '0']);
    assert("(4:0)"@ =~= seq!['(', '4', ':', '0', ')']);
    assert(t[7] == ("(4:1)"@, "41"@));
    assert("41"@ =~= seq!['4', '1']);
    assert("(4:1)"@ =~= seq!['(', '4', ':', '1', ')']);
    assert(t[8] == ("(4:2)"@, "42"@));
    assert("42"@ =~= seq!['4', '2']);
    assert("(4:2)"@ =~= seq!['(', '4', ':', '2', ')']);
    assert(t[9] == ("(5:0)"@, "50"@));
    assert("50"@ =~= seq!['5', '0']);
    assert("(5:0)"@ =~= seq!['(', '5', ':', '0', ')']);
    assert(t[10] == ("(5:1)"@, "51"@));
    assert("51"@ =~= seq!['5', '1']);
    assert("(5:1)"@ =~= seq!['(', '5', ':', '1', ')']);
    assert(t[11] == ("(5:2)"@, "52"@));
    assert("52"@ =~= seq!['5', '2']);
    assert("(5:2)"@ =~= seq!['(', '5', ':', '2', ')']);
    assert(t[12] == ("(胜其它)"@, "90"@));
    assert("90"@ =~= seq!['9', '0']);
    assert(t[13] == ("(0:0)"@, "00"@));
    assert("00"@ =~= seq!['0', '0']);
    assert("(0:0)"@ =~= seq!['(', '0', ':', '0', ')']);
    assert(t[14] == ("(1:1)"@, "11"@));
    assert("11"@ =~= seq!['1', '1']);
    assert("(1:1)"@ =~= seq!['(', '1', ':', '1', ')']);
    assert(t[15] == ("(2:2)"@, "22"@));
    assert("22"@ =~= seq!['2', '2']);
    assert("(2:2)"@ =~= seq!['(', '2', ':', '2', ')']);
    assert(t[16] == ("(3:3)"@, "33"@));
    assert("33"@ =~= seq!['3', '3']);
    assert("(3:3)"@ =~= seq!['(', '3', ':', '3', ')']);
    assert(t[17] == ("(平其它)"@, "99"@));
    assert("99"@ =~= seq!['9', '9']);
    assert(t[18] == ("(0:1)"@, "01"@));
    assert("01"@ =~= seq!['0', '1']);
    assert("(0:1)"@ =~= seq!['(', '0', ':', '1', ')']);
    assert(t[19] == ("(0:2)"@, "02"@));
    assert("02"@ =~= seq!['0', '2']);
    assert("(0:2)"@ =~= seq!['(', '0', ':', '2', ')']);
    assert(t[20] == ("(1:2)"@, "12"@));
    assert("12"@ =~= seq!['1', '2']);
    assert("(1:2)"@ =~= seq!['(', '1', ':', '2', ')']);
    assert(t[21] == ("(0:3)"@, "03"@));
    assert("03"@ =~= seq!['0', '3']);
    assert("(0:3)"@ =~= seq!['(', '0', ':', '3', ')']);
    assert(t[22] == ("(1:3)"@, "13"@));
    assert("13"@ =~= seq!['1', '3']);
    assert("(1:3)"@ =~= seq!['(', '1', ':', '3', ')']);
    assert(t[23] == ("(2:3)"@, "23"@));
    assert("23"@ =~= seq!['2', '3']);
    assert("(2:3)"@ =~= seq!['(', '2', ':', '3', ')']);
    assert(t[24] == ("(0:4)"@, "04"@));
    assert("04"@ =~= seq!['0', '4']);
    assert("(0:4)"@ =~= seq!['(', '0', ':', '4', ')']);
    assert(t[25] == ("(1:4)"@, "14"@));
    assert("14"@ =~= seq!['1', '4']);
    assert("(1:4)"@ =~= seq!['(', '1', ':', '4', ')']);
    assert(t[26] == ("(2:4)"@, "24"@));
    assert("24"@ =~= seq!['2', '4']);
    assert("(2:4)"@ =~= seq!['(', '2', ':', '4', ')']);
    assert(t[27] == ("(0:5)"@, "05"@));
    assert("05"@ =~= seq!['0', '5']);
    assert("(0:5)"@ =~= seq!['(', '0', ':', '5', ')']);
    assert(t[28] == ("(1:5)"@, "15"@));
    assert("15"@ =~= seq!['1', '5']);
    assert("(1:5)"@ =~= seq!['(', '1', ':', '5', ')']);
    assert(t[29] == ("(2:5)"@, "25"@));
    assert("25"@ =~= seq!['2', '5']);
    assert("(2:5)"@ =~= seq!['(', '2', ':', '5', ')']);
    assert(t[30] == ("(负其它)"@, "09"@));
    assert("09"@ =~= seq!['0', '9']);
    assert(u[0] == ("(0)"@, "0"@));
    assert("0"@ =~= seq!['0']);
    assert("(0)"@ =~= seq!['(', '0', ')']);
    assert(u[1] == ("(1)"@, "1"@));
    assert("1"@ =~= seq!['1']);
    assert("(1)"@ =~= seq!['(', '1', ')']);
    assert(u[2] == ("(2)"@, "2"@));
    assert("2"@ =~= seq!['2']);
    assert("(2)"@ =~= seq!['(', '2', ')']);
    assert(u[3] == ("(3)"@, "3"@));
    assert("3"@ =~= seq!['3']);
    assert("(3)"@ =~= seq!['(', '3', ')']);
    assert(u[4] == ("(4)"@, "4"@));
    assert("4"@ =~= seq!['4']);
    assert("(4)"@ =~= seq!['(', '4', ')']);
    assert(u[5] == ("(5)"@, "5"@));
    assert("5"@ =~= seq!['5']);
    assert("(5)"@ =~= seq!['(', '5', ')']);
    assert(u[6] == ("(6)"@, "6"@));
    assert("6"@ =~= seq!['6']);
    assert("(6)"@ =~= seq!['(', '6', ')']);
    assert(u[7] == ("(7)"@, "7"@));
    assert("7"@ =~= seq!['7']);
    assert("(7)"@ =~= seq!['(', '7', ')']);
    assert forall|i: int|
        0 <= i < t.len() && (#[trigger] t[i]).1[0] != '9' && t[i].1[1] != '9' implies t[i].0 == seq!['(', t[i].1[0], ':', t[i].1[1], ')'] by {
        assert(i == 0 || i == 1 || i == 2 || i == 3 || i == 4 || i == 5 || i == 6 || i == 7 || i == 8 || i == 9 || i == 10 || i == 11 || i == 12 || i == 13 || i == 14 || i == 15 || i == 16 || i == 17 || i == 18 || i == 19 || i == 20 || i == 21 || i == 22 || i == 23 || i == 24 || i == 25 || i == 26 || i == 27 || i == 28 || i == 29 || i == 30);
    }
    assert forall|i: int| 0 <= i < u.len() implies (#[trigger] u[i]).0 == seq!['(', u[i].1[0], ')'] && u[i].1.len() == 1 by {
        assert(i == 0 || i == 1 || i == 2 || i == 3 || i == 4 || i == 5 || i == 6 || i == 7);
    }
}

} // verus!
