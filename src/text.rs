//! Character-level helpers over `str` and `String` with exact contracts.

use vstd::prelude::*;

verus! {

/// Copies the characters of `s` into a vector.
pub fn chars_of(s: &str) -> (r: Vec<char>)
    ensures
        r@ == s@,
{
    let mut r: Vec<char> = Vec::new();
    for c in it: s.chars()
        invariant
            r@ == it.seq().take(it.index() as int),
            it.seq() == s@,
    {
        r.push(c);
    }
    r
}


/// The characters of `s[from..to]` as a new string.
pub fn substring(s: &str, from: usize, to: usize) -> (r: String)
    requires
        from <= to <= s@.len(),
    ensures
        r@ == s@.subrange(from as int, to as int),
{
    String::from_str(s.substring_char(from, to))
}

/// The character sequences of a list of strings.
pub open spec fn string_views(v: Seq<String>) -> Seq<Seq<char>> {
    v.map_values(|t: String| t@)
}

/// Whether two strings hold the same characters.
pub fn str_eq(a: &str, b: &str) -> (r: bool)
    ensures
        r == (a@ == b@),
{
    String::from_str(a) == String::from_str(b)
}

/// The decimal digit character of `d`, for `d < 10`.
pub open spec fn digit_char(d: nat) -> char {
    if d == 0 { '0' }
    else if d == 1 { '1' }
    else if d == 2 { '2' }
    else if d == 3 { '3' }
    else if d == 4 { '4' }
    else if d == 5 { '5' }
    else if d == 6 { '6' }
    else if d == 7 { '7' }
    else if d == 8 { '8' }
    else { '9' }
}

/// The decimal notation of `n`, without sign or leading zeros.
pub open spec fn decimal(n: nat) -> Seq<char>
    decreases n,
{
    if n < 10 {
        seq![digit_char(n)]
    } else {
        decimal(n / 10).push(digit_char(n % 10))
    }
}

/// The decimal digit `d`, for `d < 10`, as text.
fn digit_str(d: u64) -> (r: &'static str)
    requires
        d < 10,
    ensures
        r@ == seq![digit_char(d as nat)],
{
    proof {
        reveal_strlit("0");
        reveal_strlit("1");
        reveal_strlit("2");
        reveal_strlit("3");
        reveal_strlit("4");
        reveal_strlit("5");
        reveal_strlit("6");
        reveal_strlit("7");
        reveal_strlit("8");
        reveal_strlit("9");
    }
    let r = if d == 0 {
        "0"
    } else if d == 1 {
        "1"
    } else if d == 2 {
        "2"
    } else if d == 3 {
        "3"
    } else if d == 4 {
        "4"
    } else if d == 5 {
        "5"
    } else if d == 6 {
        "6"
    } else if d == 7 {
        "7"
    } else if d == 8 {
        "8"
    } else {
        "9"
    };
    assert(r@ =~= seq![digit_char(d as nat)]);
    r
}

/// The decimal notation of `n`.
pub fn decimal_string(n: u64) -> (r: String)
    ensures
        r@ == decimal(n as nat),
    decreases n,
{
    if n < 10 {
        String::from_str(digit_str(n))
    } else {
        let mut r = decimal_string(n / 10);
        r.append(digit_str(n % 10));
        assert(r@ =~= decimal((n / 10) as nat).push(digit_char((n % 10) as nat)));
        r
    }
}

/// Splits `s` at every `-`: the pieces in order, one more than there are dashes.
pub open spec fn split_dash(s: Seq<char>) -> Seq<Seq<char>>
    decreases s.len(),
{
    if s.len() == 0 {
        seq![Seq::empty()]
    } else {
        let init = split_dash(s.drop_last());
        if s.last() == '-' {
            init.push(Seq::empty())
        } else {
            init.update(init.len() - 1, init.last().push(s.last()))
        }
    }
}

/// Joins `parts` with `-` between neighbours.
pub open spec fn join_dash(parts: Seq<Seq<char>>) -> Seq<char>
    decreases parts.len(),
{
    if parts.len() == 0 {
        Seq::empty()
    } else if parts.len() == 1 {
        parts[0]
    } else {
        join_dash(parts.drop_last()) + seq!['-'] + parts.last()
    }
}

/// Whether `s` holds no `-`.
pub open spec fn dash_free(s: Seq<char>) -> bool {
    forall|i: int| 0 <= i < s.len() ==> s[i] != '-'
}

pub proof fn lemma_split_dash_nonempty(s: Seq<char>)
    ensures
        split_dash(s).len() >= 1,
    decreases s.len(),
{
    if s.len() > 0 {
        lemma_split_dash_nonempty(s.drop_last());
    }
}

/// Appending dash-free text extends the last piece.
pub proof fn lemma_split_dash_extend(a: Seq<char>, b: Seq<char>)
    requires
        dash_free(b),
    ensures
        split_dash(a + b) == split_dash(a).update(
            split_dash(a).len() - 1,
            split_dash(a).last() + b,
        ),
    decreases b.len(),
{
    lemma_split_dash_nonempty(a);
    if b.len() == 0 {
        assert(a + b =~= a);
        assert(split_dash(a).last() + b =~= split_dash(a).last());
        assert(split_dash(a).update(split_dash(a).len() - 1, split_dash(a).last())
            =~= split_dash(a));
    } else {
        let b0 = b.drop_last();
        assert(dash_free(b0));
        lemma_split_dash_extend(a, b0);
        assert((a + b).drop_last() =~= a + b0);
        assert((a + b).last() == b.last());
        assert(split_dash(a).last() + b0 + seq![b.last()] =~= split_dash(a).last() + b);
        assert((split_dash(a).last() + b0).push(b.last()) =~= split_dash(a).last() + b);
        assert(split_dash(a + b) =~= split_dash(a).update(
            split_dash(a).len() - 1,
            split_dash(a).last() + b,
        ));
    }
}

/// Splitting at dashes undoes joining dash-free pieces.
pub proof fn lemma_split_join_dash(parts: Seq<Seq<char>>)
    requires
        parts.len() >= 1,
        forall|i: int| 0 <= i < parts.len() ==> dash_free(#[trigger] parts[i]),
    ensures
        split_dash(join_dash(parts)) == parts,
    decreases parts.len(),
{
    if parts.len() == 1 {
        lemma_split_dash_extend(Seq::empty(), parts[0]);
        assert(Seq::<char>::empty() + parts[0] =~= parts[0]);
        assert(split_dash(Seq::<char>::empty()) =~= seq![Seq::<char>::empty()]);
        assert(split_dash(join_dash(parts)) =~= parts);
    } else {
        let init = parts.drop_last();
        assert forall|i: int| 0 <= i < init.len() implies dash_free(#[trigger] init[i]) by {
            assert(init[i] == parts[i]);
        }
        lemma_split_join_dash(init);
        let a = join_dash(init) + seq!['-'];
        assert(a.drop_last() =~= join_dash(init));
        assert(split_dash(a) =~= parts.drop_last().push(Seq::empty()));
        assert(dash_free(parts.last()));
        lemma_split_dash_extend(a, parts.last());
        assert(Seq::<char>::empty() + parts.last() =~= parts.last());
        assert(split_dash(join_dash(parts)) =~= parts);
    }
}

/// The pieces of `s` between dashes, in order.
pub fn split_at_dashes(s: &str) -> (r: Vec<String>)
    ensures
        string_views(r@) == split_dash(s@),
{
    let cs = chars_of(s);
    let n = cs.len();
    let mut r: Vec<String> = Vec::new();
    let mut start: usize = 0;
    let mut i: usize = 0;
    assert(s@.subrange(0, 0) =~= Seq::<char>::empty());
    assert(string_views(r@) + seq![s@.subrange(0, 0)]
        =~= split_dash(s@.subrange(0, 0)));
    while i < n
        invariant
            cs@ == s@,
            n == cs.len(),
            start <= i <= n,
            string_views(r@) + seq![s@.subrange(start as int, i as int)]
                == split_dash(s@.subrange(0, i as int)),
        decreases n - i,
    {
        let ghost pre = s@.subrange(0, i as int);
        assert(s@.subrange(0, i + 1).drop_last() =~= pre);
        proof { lemma_split_dash_nonempty(pre); }
        if cs[i] == '-' {
            let piece = substring(s, start, i);
            r.push(piece);
            assert(s@.subrange(i + 1, i + 1) =~= Seq::<char>::empty());
            assert(string_views(r@) + seq![s@.subrange(i + 1, i + 1)]
                =~= split_dash(s@.subrange(0, i + 1)));
            start = i + 1;
        } else {
            assert(s@.subrange(start as int, i + 1) =~= s@.subrange(start as int, i as int).push(cs[i as int]));
            assert(string_views(r@) + seq![s@.subrange(start as int, i + 1)]
                =~= split_dash(s@.subrange(0, i + 1)));
        }
        i = i + 1;
    }
    let last = substring(s, start, n);
    r.push(last);
    assert(s@.subrange(0, n as int) =~= s@);
    assert(string_views(r@) =~= split_dash(s@));
    r
}


/// Whether `s` ends with `p`.
pub open spec fn ends_with(s: Seq<char>, p: Seq<char>) -> bool {
    s.len() >= p.len() && s.subrange(s.len() - p.len(), s.len() as int) == p
}

/// `s` with every trailing copy of the non-empty pattern `p` removed.
pub open spec fn trim_end_matches(s: Seq<char>, p: Seq<char>) -> Seq<char>
    decreases s.len(),
{
    if p.len() > 0 && ends_with(s, p) {
        trim_end_matches(s.subrange(0, s.len() - p.len()), p)
    } else {
        s
    }
}

/// Whether the first `n` characters of `s` end with `p`.
fn ends_with_at(cs: &Vec<char>, n: usize, p: &Vec<char>) -> (r: bool)
    requires
        n <= cs.len(),
    ensures
        r == ends_with(cs@.take(n as int), p@),
{
    if p.len() > n {
        return false;
    }
    let start = n - p.len();
    let mut i: usize = 0;
    while i < p.len()
        invariant
            start + p.len() == n,
            n <= cs.len(),
            i <= p.len(),
            forall|j: int| 0 <= j < i ==> cs@[start + j] == p@[j],
        decreases p.len() - i,
    {
        if cs[start + i] != p[i] {
            assert(cs@.take(n as int).subrange(start as int, n as int)[i as int] != p@[i as int]);
            return false;
        }
        i = i + 1;
    }
    assert(cs@.take(n as int).subrange(start as int, n as int) =~= p@);
    true
}

/// Whether `s` ends with `p`.
pub fn str_ends_with(s: &str, p: &str) -> (r: bool)
    ensures
        r == ends_with(s@, p@),
{
    let cs = chars_of(s);
    let ps = chars_of(p);
    assert(cs@.take(cs.len() as int) =~= cs@);
    ends_with_at(&cs, cs.len(), &ps)
}

/// `s` with every trailing copy of the non-empty pattern `p` removed.
pub fn str_trim_end_matches(s: &str, p: &str) -> (r: String)
    ensures
        r@ == trim_end_matches(s@, p@),
{
    let cs = chars_of(s);
    let ps = chars_of(p);
    let mut n = cs.len();
    if ps.len() == 0 {
        return String::from_str(s);
    }
    assert(cs@.take(n as int) =~= s@);
    while ends_with_at(&cs, n, &ps)
        invariant
            n <= cs.len(),
            cs@ == s@,
            ps@ == p@,
            ps.len() > 0,
            trim_end_matches(s@, p@) == trim_end_matches(cs@.take(n as int), p@),
        decreases n,
    {
        assert(cs@.take(n as int).subrange(0, n - ps.len()) =~= cs@.take(n - ps.len()));
        n = n - ps.len();
    }
    substring(s, 0, n)
}

/// Whether `c` has the Unicode White_Space property.
pub open spec fn is_white_space(c: char) -> bool {
    ||| ('\u{9}' <= c && c <= '\u{d}')
    ||| c == ' '
    ||| c == '\u{85}'
    ||| c == '\u{a0}'
    ||| c == '\u{1680}'
    ||| ('\u{2000}' <= c && c <= '\u{200a}')
    ||| c == '\u{2028}'
    ||| c == '\u{2029}'
    ||| c == '\u{202f}'
    ||| c == '\u{205f}'
    ||| c == '\u{3000}'
}

/// `s` without trailing white space.
pub open spec fn trim_end_spec(s: Seq<char>) -> Seq<char>
    decreases s.len(),
{
    if s.len() > 0 && is_white_space(s.last()) {
        trim_end_spec(s.drop_last())
    } else {
        s
    }
}

/// `s` without leading white space.
pub open spec fn trim_start_spec(s: Seq<char>) -> Seq<char>
    decreases s.len(),
{
    if s.len() > 0 && is_white_space(s[0]) {
        trim_start_spec(s.drop_first())
    } else {
        s
    }
}

/// `s` without leading or trailing white space.
pub open spec fn trim_spec(s: Seq<char>) -> Seq<char> {
    trim_start_spec(trim_end_spec(s))
}

/// Whether `c` has the Unicode White_Space property.
pub fn is_white_space_char(c: char) -> (r: bool)
    ensures
        r == is_white_space(c),
{
    ('\u{9}' <= c && c <= '\u{d}') || c == ' ' || c == '\u{85}' || c == '\u{a0}' || c == '\u{1680}'
        || ('\u{2000}' <= c && c <= '\u{200a}') || c == '\u{2028}' || c == '\u{2029}' || c
        == '\u{202f}' || c == '\u{205f}' || c == '\u{3000}'
}

/// The length of `s` without its trailing white space.
fn trimmed_end_len(cs: &Vec<char>) -> (n: usize)
    ensures
        n <= cs.len(),
        cs@.take(n as int) == trim_end_spec(cs@),
{
    let mut n = cs.len();
    assert(cs@.take(n as int) =~= cs@);
    while n > 0 && is_white_space_char(cs[n - 1])
        invariant
            n <= cs.len(),
            trim_end_spec(cs@) == trim_end_spec(cs@.take(n as int)),
        decreases n,
    {
        assert(cs@.take(n as int).drop_last() =~= cs@.take(n - 1));
        n = n - 1;
    }
    n
}

/// `s` without trailing white space.
pub fn trim_end(s: &str) -> (r: String)
    ensures
        r@ == trim_end_spec(s@),
{
    let cs = chars_of(s);
    let n = trimmed_end_len(&cs);
    substring(s, 0, n)
}

/// `s` without leading or trailing white space.
pub fn trim(s: &str) -> (r: String)
    ensures
        r@ == trim_spec(s@),
{
    let cs = chars_of(s);
    let n = trimmed_end_len(&cs);
    let mut i: usize = 0;
    assert(cs@.subrange(0, n as int) =~= cs@.take(n as int));
    while i < n && is_white_space_char(cs[i])
        invariant
            n <= cs.len(),
            i <= n,
            trim_spec(s@) == trim_start_spec(cs@.subrange(i as int, n as int)),
            cs@ == s@,
        decreases n - i,
    {
        assert(cs@.subrange(i as int, n as int).drop_first() =~= cs@.subrange(i + 1, n as int));
        i = i + 1;
    }
    substring(s, i, n)
}

/// Joins `parts` with a newline between neighbours.
pub open spec fn join_lines(parts: Seq<Seq<char>>) -> Seq<char>
    decreases parts.len(),
{
    if parts.len() == 0 {
        Seq::empty()
    } else if parts.len() == 1 {
        parts[0]
    } else {
        join_lines(parts.drop_last()) + seq!['\n'] + parts.last()
    }
}

} // verus!
