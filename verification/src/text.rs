use vstd::prelude::*;
use vstd::string::*;

verus! {

/// `s` split at every character that `seps` holds, as `str::split` does:
/// `k` separators give `k + 1` pieces, empty pieces included.
pub open spec fn split_on(s: Seq<char>, seps: Seq<char>) -> Seq<Seq<char>>
    decreases s.len(),
{
    if s.len() == 0 {
        seq![Seq::<char>::empty()]
    } else {
        let p = split_on(s.drop_last(), seps);
        if seps.contains(s.last()) {
            p.push(Seq::<char>::empty())
        } else {
            p.update(p.len() - 1, p.last().push(s.last()))
        }
    }
}

/// `s` split at every `sep`.
pub open spec fn split_at_char(s: Seq<char>, sep: char) -> Seq<Seq<char>> {
    split_on(s, seq![sep])
}

pub proof fn lemma_split_on_len(s: Seq<char>, seps: Seq<char>)
    ensures
        split_on(s, seps).len() >= 1,
    decreases s.len(),
{
    if s.len() > 0 {
        lemma_split_on_len(s.drop_last(), seps);
    }
}


/// An ASCII decimal digit.
pub open spec fn is_digit(c: char) -> bool {
    '0' <= c <= '9'
}

/// Every character of `s` is an ASCII decimal digit.
pub open spec fn all_digits(s: Seq<char>) -> bool {
    forall|i: int| 0 <= i < s.len() ==> #[trigger] is_digit(s[i])
}

/// The value of a string of decimal digits.
pub open spec fn digits_value(s: Seq<char>) -> int
    decreases s.len(),
{
    if s.len() == 0 {
        0
    } else {
        digits_value(s.drop_last()) * 10 + (s.last() as int - '0' as int)
    }
}

/// The digits of a decimal integer text, after its optional sign.
pub open spec fn unsigned_part(s: Seq<char>) -> Seq<char> {
    if s.len() > 0 && (s[0] == '-' || s[0] == '+') {
        s.drop_first()
    } else {
        s
    }
}

/// The value of a decimal integer text with an optional `+` or `-` sign.
pub open spec fn int_text_value(s: Seq<char>) -> int {
    if s.len() > 0 && s[0] == '-' {
        -digits_value(s.drop_first())
    } else {
        digits_value(unsigned_part(s))
    }
}

/// `s` is what `FromStr` of a signed integer type with the bounds `lo..=hi`
/// accepts: an optional sign, at least one ASCII digit, and a value in range.
pub open spec fn is_int_text(s: Seq<char>, lo: int, hi: int) -> bool {
    &&& unsigned_part(s).len() > 0
    &&& all_digits(unsigned_part(s))
    &&& lo <= int_text_value(s) <= hi
}

/// `s` is a valid `i32` text for `i32::from_str`.
pub open spec fn is_i32_text(s: Seq<char>) -> bool {
    is_int_text(s, i32::MIN as int, i32::MAX as int)
}

/// `s` is a valid `i64` text for `i64::from_str`.
pub open spec fn is_i64_text(s: Seq<char>) -> bool {
    is_int_text(s, i64::MIN as int, i64::MAX as int)
}

pub proof fn lemma_digits_value_nonneg(s: Seq<char>)
    requires
        all_digits(s),
    ensures
        digits_value(s) >= 0,
    decreases s.len(),
{
    if s.len() > 0 {
        assert(is_digit(s[s.len() - 1]));
        assert(all_digits(s.drop_last())) by {
            assert forall|i: int| 0 <= i < s.drop_last().len() implies #[trigger] is_digit(s.drop_last()[i]) by {
                assert(is_digit(s[i]));
            }
        }
        lemma_digits_value_nonneg(s.drop_last());
    }
}

pub proof fn lemma_digits_value_prefix(s: Seq<char>, k: int)
    requires
        all_digits(s),
        0 <= k <= s.len(),
    ensures
        0 <= digits_value(s.take(k)) <= digits_value(s),
    decreases s.len(),
{
    lemma_digits_prefix_all(s, k);
    lemma_digits_value_nonneg(s.take(k));
    if k < s.len() {
        lemma_digits_prefix_all(s, s.len() - 1);
        assert(s.take(s.len() - 1) =~= s.drop_last());
        assert(s.drop_last().take(k) =~= s.take(k));
        lemma_digits_value_prefix(s.drop_last(), k);
        lemma_digits_value_nonneg(s.drop_last());
        assert(is_digit(s[s.len() - 1]));
    } else {
        assert(s.take(k) =~= s);
    }
}

proof fn lemma_digits_prefix_all(s: Seq<char>, k: int)
    requires
        all_digits(s),
        0 <= k <= s.len(),
    ensures
        all_digits(s.take(k)),
{
    assert forall|i: int| 0 <= i < s.take(k).len() implies #[trigger] is_digit(s.take(k)[i]) by {
        assert(is_digit(s[i]));
    }
}

/// The value of `s[lo..hi]`, a valid signed decimal text within `i64`.
pub fn parse_i64_chars(s: &[char], lo: usize, hi: usize) -> (v: i64)
    requires
        lo <= hi <= s@.len(),
        is_i64_text(s@.subrange(lo as int, hi as int)),
    ensures
        v == int_text_value(s@.subrange(lo as int, hi as int)),
{
    let ghost t = s@.subrange(lo as int, hi as int);
    let mut neg = false;
    let mut start = lo;
    if s[lo] == '-' {
        neg = true;
        start = lo + 1;
    } else if s[lo] == '+' {
        start = lo + 1;
    }
    let ghost d = s@.subrange(start as int, hi as int);
    assert(d =~= unsigned_part(t));
    proof {
        lemma_digits_value_nonneg(d);
    }
    let mut acc: i64 = 0;
    let mut i = start;
    assert(d.take(0) =~= Seq::<char>::empty());
    while i < hi
        invariant
            start <= i <= hi <= s@.len(),
            d == s@.subrange(start as int, hi as int),
            all_digits(d),
            neg ==> -digits_value(d) >= i64::MIN,
            !neg ==> digits_value(d) <= i64::MAX,
            neg ==> acc == -digits_value(d.take(i - start)),
            !neg ==> acc == digits_value(d.take(i - start)),
        decreases hi - i,
    {
        let c = s[i];
        let ghost k = i - start;
        assert(d[k] == c);
        assert(is_digit(d[k]));
        let dig = (c as u32 - '0' as u32) as i64;
        proof {
            assert(d.take(k + 1).drop_last() =~= d.take(k));
            assert(d.take(k + 1).last() == c);
            lemma_digits_value_prefix(d, k + 1);
        }
        if neg {
            acc = acc * 10 - dig;
        } else {
            acc = acc * 10 + dig;
        }
        i = i + 1;
    }
    assert(d.take(hi - start) =~= d);
    acc
}

/// The value of `s[lo..hi]`, a valid signed decimal text within `i32`.
pub fn parse_i32_chars(s: &[char], lo: usize, hi: usize) -> (v: i32)
    requires
        lo <= hi <= s@.len(),
        is_i32_text(s@.subrange(lo as int, hi as int)),
    ensures
        v == int_text_value(s@.subrange(lo as int, hi as int)),
{
    let v = parse_i64_chars(s, lo, hi);
    v as i32
}


/// No piece of a split holds a separator.
pub proof fn lemma_split_pieces_free(s: Seq<char>, seps: Seq<char>)
    ensures
        forall|i: int, j: int|
            0 <= i < split_on(s, seps).len() && 0 <= j < split_on(s, seps)[i].len() ==> !seps.contains(
                #[trigger] split_on(s, seps)[i][j],
            ),
    decreases s.len(),
{
    if s.len() > 0 {
        lemma_split_pieces_free(s.drop_last(), seps);
        lemma_split_on_len(s.drop_last(), seps);
        let p = split_on(s.drop_last(), seps);
        let q = split_on(s, seps);
        assert forall|i: int, j: int| 0 <= i < q.len() && 0 <= j < q[i].len() implies !seps.contains(
            #[trigger] q[i][j],
        ) by {
            if !seps.contains(s.last()) && i == p.len() - 1 {
                if j < p[i].len() {
                    assert(q[i][j] == p[i][j]);
                }
            } else if i < p.len() {
                assert(q[i] == p[i]);
            }
        }
    }
}


/// Each character of a text is a separator or a character of some piece.
pub proof fn lemma_split_char_origin(s: Seq<char>, seps: Seq<char>, j: int)
    requires
        0 <= j < s.len(),
    ensures
        seps.contains(s[j]) || exists|i: int, k: int|
            0 <= i < split_on(s, seps).len() && 0 <= k < split_on(s, seps)[i].len()
                && #[trigger] split_on(s, seps)[i][k] == s[j],
    decreases s.len(),
{
    lemma_split_on_len(s, seps);
    let p = split_on(s.drop_last(), seps);
    let q = split_on(s, seps);
    lemma_split_on_len(s.drop_last(), seps);
    if j == s.len() - 1 {
        if !seps.contains(s.last()) {
            let i = p.len() - 1;
            assert(q[i] == p[i].push(s.last()));
            assert(q[i][p[i].len() as int] == s[j]);
        }
    } else {
        lemma_split_char_origin(s.drop_last(), seps, j);
        assert(s.drop_last()[j] == s[j]);
        if !seps.contains(s[j]) {
            let (i, k) = choose|i: int, k: int|
                0 <= i < p.len() && 0 <= k < p[i].len() && #[trigger] p[i][k] == s.drop_last()[j];
            if seps.contains(s.last()) {
                assert(q[i] == p[i]);
            } else if i == p.len() - 1 {
                assert(q[i] == p[i].push(s.last()));
                assert(q[i][k] == p[i][k]);
            } else {
                assert(q[i] == p[i]);
            }
            assert(q[i][k] == s[j]);
        }
    }
}


/// A split has at most one piece more than the text has characters, and
/// no piece is longer than the text.
pub proof fn lemma_split_bounds(s: Seq<char>, seps: Seq<char>)
    ensures
        split_on(s, seps).len() <= s.len() + 1,
        forall|i: int| 0 <= i < split_on(s, seps).len() ==> (#[trigger] split_on(s, seps)[i]).len() <= s.len(),
    decreases s.len(),
{
    if s.len() > 0 {
        lemma_split_bounds(s.drop_last(), seps);
        lemma_split_on_len(s.drop_last(), seps);
        let p = split_on(s.drop_last(), seps);
        let q = split_on(s, seps);
        assert forall|i: int| 0 <= i < q.len() implies (#[trigger] q[i]).len() <= s.len() by {
            if i < p.len() {
                assert(p[i].len() <= s.len() - 1);
            }
        }
    }
}

/// A split only depends on which characters of the text are separators.
pub proof fn lemma_split_same_seps(s: Seq<char>, seps1: Seq<char>, seps2: Seq<char>)
    requires
        forall|j: int| 0 <= j < s.len() ==> (seps1.contains(#[trigger] s[j]) <==> seps2.contains(s[j])),
    ensures
        split_on(s, seps1) == split_on(s, seps2),
    decreases s.len(),
{
    if s.len() > 0 {
        assert forall|j: int| 0 <= j < s.drop_last().len() implies (seps1.contains(#[trigger] s.drop_last()[j])
            <==> seps2.contains(s.drop_last()[j])) by {
            assert(s.drop_last()[j] == s[j]);
        }
        lemma_split_same_seps(s.drop_last(), seps1, seps2);
        assert(seps1.contains(s[s.len() - 1]) <==> seps2.contains(s[s.len() - 1]));
    }
}

/// The value of a digit character.
pub open spec fn digit_value(c: char) -> int {
    c as int - '0' as int
}

/// A text of one or two digits is a valid integer text of its value.
pub proof fn lemma_short_digits_text(p: Seq<char>)
    requires
        1 <= p.len() <= 2,
        all_digits(p),
    ensures
        is_i32_text(p),
        is_i64_text(p),
        p.len() == 1 ==> int_text_value(p) == digit_value(p[0]),
        p.len() == 2 ==> int_text_value(p) == 10 * digit_value(p[0]) + digit_value(p[1]),
        0 <= int_text_value(p) <= 99,
{
    assert(is_digit(p[0]));
    assert(unsigned_part(p) == p);
    if p.len() == 1 {
        assert(p.drop_last() =~= Seq::<char>::empty());
        assert(digits_value(p.drop_last()) == 0);
        assert(digits_value(p) == digit_value(p[0]));
    } else {
        assert(is_digit(p[1]));
        let q = p.drop_last();
        assert(q.drop_last() =~= Seq::<char>::empty());
        assert(digits_value(q.drop_last()) == 0);
        assert(q.last() == p[0]);
        assert(digits_value(q) == digit_value(p[0]));
        assert(p.last() == p[1]);
        assert(digits_value(p) == digits_value(q) * 10 + digit_value(p[1]));
    }
    assert(p[0] != '-' && p[0] != '+');
    assert(int_text_value(p) == digits_value(p));
}

/// The view of a sequence of character vectors.
pub open spec fn views(v: Seq<Vec<char>>) -> Seq<Seq<char>> {
    v.map_values(|x: Vec<char>| x@)
}

/// The characters of `s`.
pub fn chars_of(s: &str) -> (v: Vec<char>)
    ensures
        v@ == s@,
{
    let len = s.unicode_len();
    let mut v: Vec<char> = Vec::new();
    let mut i: usize = 0;
    while i < len
        invariant
            len == s@.len(),
            i <= len,
            v@ == s@.subrange(0, i as int),
        decreases len - i,
    {
        let c = s.get_char(i);
        v.push(c);
        i = i + 1;
        assert(v@ =~= s@.subrange(0, i as int));
    }
    assert(v@ =~= s@);
    v
}

/// `s` split at every character of `seps`.
pub fn split_chars(s: &[char], seps: &[char]) -> (pieces: Vec<Vec<char>>)
    ensures
        views(pieces@) == split_on(s@, seps@),
{
    let mut pieces: Vec<Vec<char>> = Vec::new();
    let mut cur: Vec<char> = Vec::new();
    let mut i: usize = 0;
    assert(s@.subrange(0, 0) =~= Seq::<char>::empty());
    assert(views(pieces@).push(cur@) =~= split_on(s@.subrange(0, 0), seps@));
    while i < s.len()
        invariant
            i <= s@.len(),
            views(pieces@).push(cur@) == split_on(s@.subrange(0, i as int), seps@),
        decreases s@.len() - i,
    {
        let c = s[i];
        let ghost t = s@.subrange(0, i + 1);
        assert(t.drop_last() =~= s@.subrange(0, i as int));
        assert(t.last() == c);
        if contains_char(seps, c) {
            let ghost old_pieces = views(pieces@);
            pieces.push(cur);
            cur = Vec::new();
            assert(views(pieces@) =~= old_pieces.push(views(pieces@).last()));
            assert(views(pieces@).push(cur@) =~= split_on(t, seps@));
        } else {
            let ghost old_cur = cur@;
            cur.push(c);
            assert(views(pieces@).push(cur@) =~= views(pieces@).push(old_cur).update(
                views(pieces@).len() as int,
                old_cur.push(c),
            ));
        }
        i = i + 1;
    }
    assert(s@.subrange(0, s@.len() as int) =~= s@);
    let ghost before = views(pieces@);
    pieces.push(cur);
    assert(views(pieces@) =~= before.push(cur@));
    pieces
}

/// Whether `c` occurs in `cs`.
pub fn contains_char(cs: &[char], c: char) -> (b: bool)
    ensures
        b == cs@.contains(c),
{
    let mut i: usize = 0;
    while i < cs.len()
        invariant
            i <= cs@.len(),
            forall|j: int| 0 <= j < i ==> cs@[j] != c,
        decreases cs@.len() - i,
    {
        if cs[i] == c {
            assert(cs@[i as int] == c);
            return true;
        }
        i = i + 1;
    }
    false
}

/// Whether two character sequences are equal.
pub fn chars_eq(a: &[char], b: &[char]) -> (r: bool)
    ensures
        r == (a@ == b@),
{
    if a.len() != b.len() {
        return false;
    }
    let mut i: usize = 0;
    while i < a.len()
        invariant
            a@.len() == b@.len(),
            i <= a@.len(),
            forall|j: int| 0 <= j < i ==> a@[j] == b@[j],
        decreases a@.len() - i,
    {
        if a[i] != b[i] {
            return false;
        }
        i = i + 1;
    }
    assert(a@ =~= b@);
    true
}

/// Whether the text `a` equals the literal-like text `b`.
pub fn str_eq(a: &str, b: &str) -> (r: bool)
    ensures
        r == (a@ == b@),
{
    let ac = chars_of(a);
    let bc = chars_of(b);
    chars_eq(ac.as_slice(), bc.as_slice())
}

/// The text of the characters `cs`. Calls std's `String::from_iter` over
/// the characters, which the documentation describes as collecting them
/// into a string in order.
#[verifier::external_body]
pub(crate) fn string_of(cs: &Vec<char>) -> (s: String)
    ensures
        s@ == cs@,
{
    String::from_iter(cs.iter())
}

/// Appends the characters of `s` to `out`.
pub fn push_str_chars(out: &mut Vec<char>, s: &str)
    ensures
        final(out)@ == old(out)@ + s@,
{
    let cs = chars_of(s);
    push_chars(out, cs.as_slice());
}

/// Appends `cs` to `out`.
pub fn push_chars(out: &mut Vec<char>, cs: &[char])
    ensures
        final(out)@ == old(out)@ + cs@,
{
    let ghost start = out@;
    let mut i: usize = 0;
    while i < cs.len()
        invariant
            i <= cs@.len(),
            out@ == start + cs@.take(i as int),
        decreases cs@.len() - i,
    {
        out.push(cs[i]);
        i = i + 1;
        assert(out@ =~= start + cs@.take(i as int));
    }
    assert(cs@.take(cs@.len() as int) =~= cs@);
}

} // verus!
