//! Small verified helpers on strings: decimal rendering, prefix tests and
//! lexicographic order on character sequences.

use vstd::prelude::*;

verus! {

/// The character for one decimal digit.
pub open spec fn digit_char(d: int) -> char {
    if d == 0 {
        '0'
    } else if d == 1 {
        '1'
    } else if d == 2 {
        '2'
    } else if d == 3 {
        '3'
    } else if d == 4 {
        '4'
    } else if d == 5 {
        '5'
    } else if d == 6 {
        '6'
    } else if d == 7 {
        '7'
    } else if d == 8 {
        '8'
    } else {
        '9'
    }
}

/// The decimal rendering of a natural number, most significant digit first.
pub open spec fn dec_str(n: nat) -> Seq<char>
    decreases n,
{
    if n < 10 {
        seq![digit_char(n as int)]
    } else {
        dec_str(n / 10).push(digit_char((n % 10) as int))
    }
}

fn digit_str(d: u64) -> (r: String)
    requires
        d < 10,
    ensures
        r@ == seq![digit_char(d as int)],
{
    let s: &str = if d == 0 {
        "0"
    } else if d == 1 {
        "1"
    } else if d == 2 {
        "2"
    } else if d == 3 {
        "3"
    } else if d == 4 {
        "4"
    } else if d == 5 {
        "5"
    } else if d == 6 {
        "6"
    } else if d == 7 {
        "7"
    } else if d == 8 {
        "8"
    } else {
        "9"
    };
    proof {
        reveal_strlit("0");
        reveal_strlit("1");
        reveal_strlit("2");
        reveal_strlit("3");
        reveal_strlit("4");
        reveal_strlit("5");
        reveal_strlit("6");
        reveal_strlit("7");
        reveal_strlit("8");
        reveal_strlit("9");
        assert(s@ =~= seq![digit_char(d as int)]);
    }
    String::from_str(s)
}

/// Renders `n` in decimal.
pub fn u64_to_string(n: u64) -> (r: String)
    ensures
        r@ == dec_str(n as nat),
    decreases n,
{
    if n < 10 {
        digit_str(n)
    } else {
        let mut s = u64_to_string(n / 10);
        let d = digit_str(n % 10);
        s.append(d.as_str());
        proof {
            assert(s@ =~= dec_str((n / 10) as nat).push(digit_char((n % 10) as int)));
        }
        s
    }
}

/// Whether `p` is a prefix of `s`.
pub open spec fn is_prefix_of(p: Seq<char>, s: Seq<char>) -> bool {
    p.len() <= s.len() && s.subrange(0, p.len() as int) == p
}

/// Whether `s` starts with `p`, by characters.
pub fn str_starts_with(s: &str, p: &str) -> (r: bool)
    ensures
        r == is_prefix_of(p@, s@),
{
    let s_len = s.unicode_len();
    let p_len = p.unicode_len();
    if p_len > s_len {
        proof {
            assert(!is_prefix_of(p@, s@));
        }
        return false;
    }
    let mut i: usize = 0;
    while i < p_len
        invariant
            i <= p_len,
            p_len <= s_len,
            p_len == p@.len(),
            s_len == s@.len(),
            forall|j: int| 0 <= j < i ==> s@[j] == p@[j],
        decreases p_len - i,
    {
        if s.get_char(i) != p.get_char(i) {
            proof {
                assert(s@.subrange(0, p@.len() as int)[i as int] != p@[i as int]);
            }
            return false;
        }
        i = i + 1;
    }
    proof {
        assert(s@.subrange(0, p@.len() as int) =~= p@);
    }
    true
}

/// Strict lexicographic order on character sequences, by code point.
pub open spec fn lex_lt(a: Seq<char>, b: Seq<char>) -> bool
    decreases a.len(),
{
    if b.len() == 0 {
        false
    } else if a.len() == 0 {
        true
    } else if a[0] != b[0] {
        (a[0] as int) < (b[0] as int)
    } else {
        lex_lt(a.skip(1), b.skip(1))
    }
}

/// Two sequences that neither order strictly are equal.
pub proof fn lemma_lex_total(a: Seq<char>, b: Seq<char>)
    requires
        !lex_lt(a, b),
        !lex_lt(b, a),
    ensures
        a == b,
    decreases a.len(),
{
    if b.len() == 0 {
        assert(a.len() == 0);
        assert(a =~= b);
    } else if a.len() == 0 {
        assert(lex_lt(a, b));
    } else if a[0] != b[0] {
        if (a[0] as int) < (b[0] as int) {
            assert(lex_lt(a, b));
        } else if (b[0] as int) < (a[0] as int) {
            assert(lex_lt(b, a));
        } else {
            assert(a[0] == b[0]);
        }
    } else {
        lemma_lex_total(a.skip(1), b.skip(1));
        assert(a =~= seq![a[0]] + a.skip(1));
        assert(b =~= seq![b[0]] + b.skip(1));
    }
}

/// Nothing orders strictly before itself.
pub proof fn lemma_lex_irrefl(a: Seq<char>)
    ensures
        !lex_lt(a, a),
    decreases a.len(),
{
    if a.len() > 0 {
        lemma_lex_irrefl(a.skip(1));
    }
}

/// Strict order only ever holds one way round.
pub proof fn lemma_lex_asym(a: Seq<char>, b: Seq<char>)
    requires
        lex_lt(a, b),
    ensures
        !lex_lt(b, a),
    decreases a.len(),
{
    if b.len() == 0 {
    } else if a.len() == 0 {
    } else if a[0] != b[0] {
    } else {
        lemma_lex_asym(a.skip(1), b.skip(1));
    }
}

/// Two different sequences order one way or the other.
pub proof fn lemma_lex_total_neq(a: Seq<char>, b: Seq<char>)
    requires
        a != b,
    ensures
        lex_lt(a, b) || lex_lt(b, a),
{
    if !lex_lt(a, b) && !lex_lt(b, a) {
        lemma_lex_total(a, b);
    }
}

/// Strict lexicographic order is transitive.
pub proof fn lemma_lex_trans(a: Seq<char>, b: Seq<char>, c: Seq<char>)
    requires
        lex_lt(a, b),
        lex_lt(b, c),
    ensures
        lex_lt(a, c),
    decreases a.len(),
{
    if c.len() == 0 {
    } else if b.len() == 0 {
    } else if a.len() == 0 {
    } else {
        if a[0] != b[0] {
            if b[0] != c[0] {
                assert((a[0] as int) < (c[0] as int));
                assert(a[0] != c[0]) by {
                    if a[0] == c[0] {
                        assert((a[0] as int) == (c[0] as int));
                    }
                }
            } else {
                assert(a[0] != c[0]) by {
                    if a[0] == c[0] {
                        assert((a[0] as int) == (b[0] as int));
                        assert(a[0] == b[0]);
                    }
                }
            }
        } else {
            if b[0] != c[0] {
                assert(a[0] != c[0]) by {
                    if a[0] == c[0] {
                        assert(b[0] == c[0]);
                    }
                }
            } else {
                lemma_lex_trans(a.skip(1), b.skip(1), c.skip(1));
            }
        }
    }
}

/// Whether `a` orders strictly before `b`, by code point.
pub fn str_lex_lt(a: &str, b: &str) -> (r: bool)
    ensures
        r == lex_lt(a@, b@),
{
    let a_len = a.unicode_len();
    let b_len = b.unicode_len();
    let mut i: usize = 0;
    proof {
        assert(a@.skip(0) =~= a@);
        assert(b@.skip(0) =~= b@);
    }
    loop
        invariant
            i <= a_len,
            i <= b_len,
            a_len == a@.len(),
            b_len == b@.len(),
            forall|j: int| 0 <= j < i ==> a@[j] == b@[j],
            lex_lt(a@, b@) == lex_lt(a@.skip(i as int), b@.skip(i as int)),
        decreases a_len - i,
    {
        if i >= b_len {
            proof {
                assert(b@.skip(i as int).len() == 0);
            }
            return false;
        }
        if i >= a_len {
            proof {
                assert(a@.skip(i as int).len() == 0);
                assert(b@.skip(i as int).len() > 0);
            }
            return true;
        }
        let ca = a.get_char(i);
        let cb = b.get_char(i);
        if ca != cb {
            proof {
                assert(a@.skip(i as int)[0] == ca);
                assert(b@.skip(i as int)[0] == cb);
                assert((ca as u32) as int == ca as int);
                assert((cb as u32) as int == cb as int);
            }
            return (ca as u32) < (cb as u32);
        }
        proof {
            assert(a@.skip(i as int)[0] == b@.skip(i as int)[0]);
            assert(a@.skip(i as int).skip(1) =~= a@.skip(i + 1));
            assert(b@.skip(i as int).skip(1) =~= b@.skip(i + 1));
        }
        i = i + 1;
    }
}

/// The first position of `sep` in `s`; the length when absent.
pub open spec fn first_sep(s: Seq<char>, sep: char) -> int
    decreases s.len(),
{
    if s.len() == 0 {
        0
    } else if s[0] == sep {
        0
    } else {
        1 + first_sep(s.skip(1), sep)
    }
}

pub proof fn lemma_first_sep_bounds(s: Seq<char>, sep: char)
    ensures
        0 <= first_sep(s, sep) <= s.len(),
        first_sep(s, sep) < s.len() ==> s[first_sep(s, sep)] == sep,
        forall|k: int| 0 <= k < first_sep(s, sep) ==> s[k] != sep,
    decreases s.len(),
{
    if s.len() == 0 {
    } else if s[0] == sep {
    } else {
        lemma_first_sep_bounds(s.skip(1), sep);
        assert forall|k: int| 0 <= k < first_sep(s, sep) implies s[k] != sep by {
            if k > 0 {
                assert(s.skip(1)[k - 1] != sep);
            }
        }
    }
}

pub proof fn lemma_first_sep_at(s: Seq<char>, sep: char, i: int)
    requires
        0 <= i < s.len(),
        s[i] == sep,
        forall|k: int| 0 <= k < i ==> s[k] != sep,
    ensures
        first_sep(s, sep) == i,
    decreases i,
{
    if i == 0 {
    } else {
        assert forall|k: int| 0 <= k < i - 1 implies s.skip(1)[k] != sep by {
            assert(s[k + 1] != sep);
        }
        assert(s.skip(1)[i - 1] == sep);
        lemma_first_sep_at(s.skip(1), sep, i - 1);
    }
}

pub proof fn lemma_first_sep_absent(s: Seq<char>, sep: char)
    requires
        forall|k: int| 0 <= k < s.len() ==> s[k] != sep,
    ensures
        first_sep(s, sep) == s.len(),
    decreases s.len(),
{
    if s.len() == 0 {
    } else {
        assert forall|k: int| 0 <= k < s.skip(1).len() implies s.skip(1)[k] != sep by {
            assert(s[k + 1] != sep);
        }
        lemma_first_sep_absent(s.skip(1), sep);
    }
}

/// Splitting on a separator character: the pieces between occurrences, with
/// a piece before the first and after the last.
pub open spec fn split_spec(s: Seq<char>, sep: char) -> Seq<Seq<char>>
    decreases s.len(),
{
    let i = first_sep(s, sep);
    if 0 <= i < s.len() {
        seq![s.take(i)] + split_spec(s.skip(i + 1), sep)
    } else {
        seq![s]
    }
}

/// Joining pieces with a separator character.
pub open spec fn join_spec(pieces: Seq<Seq<char>>, sep: char) -> Seq<char>
    decreases pieces.len(),
{
    if pieces.len() == 0 {
        Seq::empty()
    } else if pieces.len() == 1 {
        pieces[0]
    } else {
        pieces[0] + seq![sep] + join_spec(pieces.skip(1), sep)
    }
}

/// Joining what splitting produced gives the original text back.
pub proof fn lemma_join_split_round_trip(s: Seq<char>, sep: char)
    ensures
        join_spec(split_spec(s, sep), sep) == s,
    decreases s.len(),
{
    lemma_first_sep_bounds(s, sep);
    let i = first_sep(s, sep);
    if 0 <= i < s.len() {
        lemma_join_split_round_trip(s.skip(i + 1), sep);
        let rest = split_spec(s.skip(i + 1), sep);
        assert(rest.len() >= 1);
        let whole = seq![s.take(i)] + rest;
        assert(whole[0] == s.take(i));
        assert(whole.skip(1) =~= rest);
        assert(join_spec(whole, sep) == s.take(i) + seq![sep] + join_spec(rest, sep));
        assert(s.take(i) + seq![sep] + s.skip(i + 1) =~= s);
    }
}

/// Splits `s` at every occurrence of `sep`.
pub fn split_char(s: &str, sep: char) -> (r: Vec<String>)
    ensures
        r@.map_values(|p: String| p@) == split_spec(s@, sep),
{
    let n = s.unicode_len();
    let mut out: Vec<String> = Vec::new();
    let mut start: usize = 0;
    let mut i: usize = 0;
    proof {
        assert(s@.skip(0) =~= s@);
        assert(out@.map_values(|p: String| p@) + split_spec(s@, sep) =~= split_spec(s@, sep));
    }
    while i < n
        invariant
            n == s@.len(),
            start <= i <= n,
            forall|k: int| start <= k < i ==> s@[k] != sep,
            split_spec(s@, sep) == out@.map_values(|p: String| p@) + split_spec(
                s@.skip(start as int),
                sep,
            ),
        decreases n - i,
    {
        if s.get_char(i) == sep {
            let piece = s.substring_char(start, i);
            out.push(piece.to_owned());
            proof {
                let tail = s@.skip(start as int);
                assert forall|k: int| 0 <= k < i - start implies tail[k] != sep by {
                    assert(s@[start + k] != sep);
                }
                assert(tail[i - start] == sep);
                lemma_first_sep_at(tail, sep, i - start);
                assert(tail.take(i - start) =~= s@.subrange(start as int, i as int));
                assert(tail.skip(i - start + 1) =~= s@.skip(i + 1));
                assert(split_spec(tail, sep) == seq![s@.subrange(start as int, i as int)]
                    + split_spec(s@.skip(i + 1), sep));
                assert(out@.map_values(|p: String| p@) =~= out@.map_values(
                    |p: String| p@,
                ).drop_last().push(s@.subrange(start as int, i as int)));
                assert(split_spec(s@, sep) =~= out@.map_values(|p: String| p@) + split_spec(
                    s@.skip(i + 1),
                    sep,
                ));
            }
            start = i + 1;
        }
        i = i + 1;
    }
    let piece = s.substring_char(start, n);
    out.push(piece.to_owned());
    proof {
        let tail = s@.skip(start as int);
        assert forall|k: int| 0 <= k < tail.len() implies tail[k] != sep by {
            assert(s@[start + k] != sep);
        }
        lemma_first_sep_absent(tail, sep);
        assert(split_spec(tail, sep) == seq![tail]);
        assert(tail =~= s@.subrange(start as int, n as int));
        assert(out@.map_values(|p: String| p@) =~= out@.map_values(
            |p: String| p@,
        ).drop_last().push(tail));
        assert(out@.map_values(|p: String| p@) =~= split_spec(s@, sep));
    }
    out
}

/// Appending one more piece to a non-empty join adds a separator first.
pub proof fn lemma_join_push(pieces: Seq<Seq<char>>, x: Seq<char>, sep: char)
    requires
        pieces.len() >= 1,
    ensures
        join_spec(pieces.push(x), sep) == join_spec(pieces, sep) + seq![sep] + x,
    decreases pieces.len(),
{
    if pieces.len() == 1 {
        let whole = pieces.push(x);
        assert(whole.len() == 2);
        assert(whole[0] == pieces[0]);
        assert(whole.skip(1) =~= seq![x]);
        assert(join_spec(whole.skip(1), sep) == x);
    } else {
        lemma_join_push(pieces.skip(1), x, sep);
        let whole = pieces.push(x);
        assert(whole.skip(1) =~= pieces.skip(1).push(x));
        assert(join_spec(whole, sep) == whole[0] + seq![sep] + join_spec(whole.skip(1), sep));
        assert(join_spec(pieces, sep) + seq![sep] + x =~= pieces[0] + seq![sep] + (join_spec(
            pieces.skip(1),
            sep,
        ) + seq![sep] + x));
    }
}

/// Joins pieces with a one-character separator; `sep_str` spells `sep`.
pub fn join_char(pieces: &Vec<String>, sep_str: &str, Ghost(sep): Ghost<char>) -> (r: String)
    requires
        sep_str@ == seq![sep],
    ensures
        r@ == join_spec(pieces@.map_values(|p: String| p@), sep),
{
    let ghost views = pieces@.map_values(|p: String| p@);
    let mut out = String::new();
    if pieces.len() == 0 {
        return out;
    }
    out.append(pieces[0].as_str());
    let mut i: usize = 1;
    proof {
        assert(views.take(1) =~= seq![views[0]]);
        assert(out@ =~= join_spec(views.take(1), sep));
    }
    while i < pieces.len()
        invariant
            1 <= i <= pieces@.len(),
            views == pieces@.map_values(|p: String| p@),
            sep_str@ == seq![sep],
            out@ == join_spec(views.take(i as int), sep),
        decreases pieces@.len() - i,
    {
        out.append(sep_str);
        out.append(pieces[i].as_str());
        proof {
            lemma_join_push(views.take(i as int), views[i as int], sep);
            assert(views.take(i + 1) =~= views.take(i as int).push(views[i as int]));
            assert(out@ =~= join_spec(views.take(i + 1), sep));
        }
        i = i + 1;
    }
    proof {
        assert(views.take(views.len() as int) =~= views);
    }
    out
}

/// A mutable reference to one element of a vector.
pub fn vec_mut_ref<T>(v: &mut Vec<T>, i: usize) -> (r: &mut T)
    requires
        i < old(v)@.len(),
    ensures
        *r == old(v)@[i as int],
        final(v)@ == old(v)@.update(i as int, *final(r)),
{
    &mut v[i]
}

/// Rebuilds a vector of strings; the copy has the same sequence of values.
pub fn clone_string_vec(v: &Vec<String>) -> (r: Vec<String>)
    ensures
        r@ == v@,
{
    let mut out: Vec<String> = Vec::new();
    let mut i: usize = 0;
    while i < v.len()
        invariant
            i <= v.len(),
            out@ == v@.subrange(0, i as int),
        decreases v.len() - i,
    {
        out.push(v[i].clone());
        proof {
            assert(out@ =~= v@.subrange(0, i + 1));
        }
        i = i + 1;
    }
    proof {
        assert(out@ =~= v@);
    }
    out
}

} // verus!
