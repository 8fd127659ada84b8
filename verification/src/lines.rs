//! Splitting text at a separator and joining pieces with one, as the save
//! files need them: lines at line breaks, fields at commas, values after a
//! label, and the timestamps of a video save at their end markers.

use vstd::prelude::*;

use crate::text::{find, find_chars, find_from, lemma_find_from_bounds, occurs_at, text_chars};

verus! {

broadcast use vstd::string::group_string_axioms;

// ---------------------------------------------------------------------------
// Specifications
// ---------------------------------------------------------------------------

/// `p` occurs nowhere in `s`.
pub open spec fn lacks(s: Seq<char>, p: Seq<char>) -> bool {
    forall|i: int| !#[trigger] occurs_at(s, p, i)
}

/// The pieces of `s` between the occurrences of the pattern `p`, as
/// `str::split` gives them: occurrences are found from the left and do not
/// overlap, and there is always one piece more than there are occurrences.
pub open spec fn split_str(s: Seq<char>, p: Seq<char>) -> Seq<Seq<char>>
    decreases s.len(),
{
    if p.len() == 0 {
        seq![s]
    } else {
        match find(s, p) {
            Some(i) => {
                proof {
                    lemma_find_from_bounds(s, p, 0);
                }
                seq![s.subrange(0, i)] + split_str(s.subrange(i + p.len(), s.len() as int), p)
            },
            None => seq![s],
        }
    }
}

/// The pieces `ps` written one after the other with `sep` between each two.
pub open spec fn join_str(ps: Seq<Seq<char>>, sep: Seq<char>) -> Seq<char>
    decreases ps.len(),
{
    if ps.len() == 0 {
        Seq::empty()
    } else if ps.len() == 1 {
        ps[0]
    } else {
        ps[0] + sep + join_str(ps.drop_first(), sep)
    }
}

/// The text of each string of `v`.
pub open spec fn string_views(v: Seq<String>) -> Seq<Seq<char>> {
    v.map_values(|s: String| s@)
}

/// No piece of `ps` holds the character `c`.
pub open spec fn pieces_lack(ps: Seq<Seq<char>>, c: char) -> bool {
    forall|i: int, j: int| 0 <= i < ps.len() && 0 <= j < ps[i].len() ==> #[trigger] ps[i][j] != c
}

// ---------------------------------------------------------------------------
// Lemmas
// ---------------------------------------------------------------------------

/// Searching the tail of `s` from `pos` on is searching `s` from `pos` on.
pub(crate) proof fn lemma_find_from_shift(s: Seq<char>, p: Seq<char>, pos: int, k: int)
    requires
        0 <= pos <= s.len(),
        0 <= k,
    ensures
        find_from(s.subrange(pos, s.len() as int), p, k) == match find_from(s, p, pos + k) {
            Some(i) => Some(i - pos),
            None => None::<int>,
        },
    decreases s.len() + 1 - (pos + k),
{
    let t = s.subrange(pos, s.len() as int);
    if k + p.len() <= t.len() {
        assert(t.subrange(k, k + p.len()) =~= s.subrange(pos + k, pos + k + p.len()));
        if !occurs_at(t, p, k) {
            lemma_find_from_shift(s, p, pos, k + 1);
        }
    }
}

/// The first occurrence of `p` in `s` is at `k` when it occurs there and at
/// no earlier position.
pub proof fn lemma_find_first(s: Seq<char>, p: Seq<char>, k: int)
    requires
        0 <= k,
        occurs_at(s, p, k),
        forall|i: int| 0 <= i < k ==> !#[trigger] occurs_at(s, p, i),
    ensures
        find(s, p) == Some(k),
{
    lemma_find_first_from(s, p, k, 0);
}

proof fn lemma_find_first_from(s: Seq<char>, p: Seq<char>, k: int, i: int)
    requires
        0 <= i <= k,
        occurs_at(s, p, k),
        forall|j: int| 0 <= j < k ==> !#[trigger] occurs_at(s, p, j),
    ensures
        find_from(s, p, i) == Some(k),
    decreases k - i,
{
    if i < k {
        assert(!occurs_at(s, p, i));
        lemma_find_first_from(s, p, k, i + 1);
    }
}

/// A pattern that occurs nowhere is not found.
pub proof fn lemma_find_none(s: Seq<char>, p: Seq<char>)
    requires
        lacks(s, p),
    ensures
        find(s, p) is None,
{
    lemma_find_none_from(s, p, 0);
}

proof fn lemma_find_none_from(s: Seq<char>, p: Seq<char>, i: int)
    requires
        lacks(s, p),
    ensures
        find_from(s, p, i) is None,
    decreases s.len() + 1 - i,
{
    if !(i < 0 || i + p.len() > s.len()) {
        assert(!occurs_at(s, p, i));
        lemma_find_none_from(s, p, i + 1);
    }
}

/// Text without the pattern is one piece.
pub proof fn lemma_split_whole(s: Seq<char>, p: Seq<char>)
    requires
        p.len() > 0,
        lacks(s, p),
    ensures
        split_str(s, p) == seq![s],
{
    lemma_find_none(s, p);
}

/// Splitting `a + p + b` where `p` first occurs after `a`: `a` is the first
/// piece and the pieces of `b` follow.
pub proof fn lemma_split_step(a: Seq<char>, p: Seq<char>, b: Seq<char>)
    requires
        p.len() > 0,
        forall|i: int| 0 <= i < a.len() ==> !#[trigger] occurs_at(a + p + b, p, i),
    ensures
        split_str(a + p + b, p) == seq![a] + split_str(b, p),
{
    let s = a + p + b;
    assert(s.subrange(a.len() as int, (a.len() + p.len()) as int) =~= p);
    lemma_find_first(s, p, a.len() as int);
    assert(s.subrange(0, a.len() as int) =~= a);
    assert(s.subrange((a.len() + p.len()) as int, s.len() as int) =~= b);
}

/// A single character `c` occurs at `i` exactly where `s[i]` is `c`.
pub proof fn lemma_occurs_char(s: Seq<char>, c: char, i: int)
    ensures
        occurs_at(s, seq![c], i) <==> (0 <= i < s.len() && s[i] == c),
{
    if 0 <= i < s.len() && s[i] == c {
        assert(s.subrange(i, i + 1) =~= seq![c]);
    }
    if occurs_at(s, seq![c], i) {
        assert(s.subrange(i, i + 1)[0] == s[i]);
    }
}

/// The first occurrence of the character `c` in `s` is at `k` when `s[k]`
/// is `c` and no earlier character is.
pub proof fn lemma_find_char(s: Seq<char>, c: char, k: int)
    requires
        0 <= k < s.len(),
        s[k] == c,
        forall|j: int| 0 <= j < k ==> s[j] != c,
    ensures
        find(s, seq![c]) == Some(k),
{
    lemma_occurs_char(s, c, k);
    assert forall|i: int| 0 <= i < k implies !#[trigger] occurs_at(s, seq![c], i) by {
        lemma_occurs_char(s, c, i);
    }
    lemma_find_first(s, seq![c], k);
}

/// Text without the character `c` lacks the one-character pattern `c`.
pub proof fn lemma_lacks_char(s: Seq<char>, c: char)
    requires
        forall|j: int| 0 <= j < s.len() ==> s[j] != c,
    ensures
        lacks(s, seq![c]),
{
    assert forall|i: int| !#[trigger] occurs_at(s, seq![c], i) by {
        lemma_occurs_char(s, c, i);
    }
}

/// A pattern that starts with a character absent from `a` cannot occur in
/// `a + p + b` before the end of `a`.
pub proof fn lemma_no_match_in_prefix(a: Seq<char>, p: Seq<char>, b: Seq<char>)
    requires
        p.len() > 0,
        forall|j: int| 0 <= j < a.len() ==> a[j] != p[0],
    ensures
        forall|i: int| 0 <= i < a.len() ==> !#[trigger] occurs_at(a + p + b, p, i),
{
    assert forall|i: int| 0 <= i < a.len() implies !#[trigger] occurs_at(a + p + b, p, i) by {
        let s = a + p + b;
        if occurs_at(s, p, i) {
            assert(s.subrange(i, i + p.len())[0] == s[i]);
            assert(s[i] == a[i]);
        }
    }
}

/// Joining one more piece adds the separator and the piece at the end.
pub proof fn lemma_join_push(ps: Seq<Seq<char>>, x: Seq<char>, sep: Seq<char>)
    requires
        ps.len() >= 1,
    ensures
        join_str(ps.push(x), sep) == join_str(ps, sep) + sep + x,
    decreases ps.len(),
{
    if ps.len() == 1 {
        assert(ps.push(x).drop_first() =~= seq![x]);
        assert(join_str(seq![x], sep) == x);
        assert(join_str(ps.push(x), sep) =~= join_str(ps, sep) + sep + x);
    } else {
        assert(ps.push(x).drop_first() =~= ps.drop_first().push(x));
        lemma_join_push(ps.drop_first(), x, sep);
        assert(join_str(ps.push(x), sep) =~= join_str(ps, sep) + sep + x);
    }
}

/// Splitting pieces joined with a character that none of them holds gives the
/// pieces back.
pub proof fn lemma_split_join(ps: Seq<Seq<char>>, c: char)
    requires
        ps.len() >= 1,
        pieces_lack(ps, c),
    ensures
        split_str(join_str(ps, seq![c]), seq![c]) == ps,
    decreases ps.len(),
{
    let p = seq![c];
    assert forall|j: int| 0 <= j < ps[0].len() implies ps[0][j] != c by {
        assert(ps[0][j] != c);
    }
    if ps.len() == 1 {
        lemma_lacks_char(ps[0], c);
        lemma_split_whole(ps[0], p);
        assert(seq![ps[0]] =~= ps);
    } else {
        let rest = ps.drop_first();
        assert(pieces_lack(rest, c)) by {
            assert forall|i: int, j: int| 0 <= i < rest.len() && 0 <= j < rest[i].len() implies #[trigger] rest[i][j] != c by {
                assert(rest[i] == ps[i + 1]);
            }
        }
        lemma_split_join(rest, c);
        lemma_no_match_in_prefix(ps[0], p, join_str(rest, p));
        lemma_split_step(ps[0], p, join_str(rest, p));
        assert(seq![ps[0]] + rest =~= ps);
    }
}

/// Splitting pieces joined with `sep` gives the pieces back when no piece
/// but the last holds the first character of `sep` and the last holds no
/// `sep`.
pub proof fn lemma_split_join_pattern(ps: Seq<Seq<char>>, sep: Seq<char>)
    requires
        ps.len() >= 1,
        sep.len() > 0,
        forall|i: int, j: int| 0 <= i < ps.len() - 1 && 0 <= j < ps[i].len() ==> #[trigger] ps[i][j] != sep[0],
        lacks(ps.last(), sep),
    ensures
        split_str(join_str(ps, sep), sep) == ps,
    decreases ps.len(),
{
    if ps.len() == 1 {
        lemma_split_whole(ps[0], sep);
        assert(seq![ps[0]] =~= ps);
    } else {
        let rest = ps.drop_first();
        assert forall|i: int, j: int| 0 <= i < rest.len() - 1 && 0 <= j < rest[i].len() implies #[trigger] rest[i][j] != sep[0] by {
            assert(rest[i] == ps[i + 1]);
        }
        assert(rest.last() == ps.last());
        lemma_split_join_pattern(rest, sep);
        assert forall|j: int| 0 <= j < ps[0].len() implies ps[0][j] != sep[0] by {
            assert(ps[0][j] != sep[0]);
        }
        lemma_no_match_in_prefix(ps[0], sep, join_str(rest, sep));
        lemma_split_step(ps[0], sep, join_str(rest, sep));
        assert(seq![ps[0]] + rest =~= ps);
    }
}

/// Joining the pieces of a split with its pattern gives the text back.
pub proof fn lemma_join_split(s: Seq<char>, p: Seq<char>)
    requires
        p.len() > 0,
    ensures
        join_str(split_str(s, p), p) == s,
    decreases s.len(),
{
    lemma_find_from_bounds(s, p, 0);
    match find(s, p) {
        Some(i) => {
            let a = s.subrange(0, i);
            let b = s.subrange(i + p.len(), s.len() as int);
            lemma_join_split(b, p);
            let rest = split_str(b, p);
            assert((seq![a] + rest).drop_first() =~= rest);
            assert(a + p + b =~= s);
        },
        None => {},
    }
}

// ---------------------------------------------------------------------------
// Executable functions
// ---------------------------------------------------------------------------

/// Returns the pieces of `text` between the occurrences of `pattern`, as
/// `text.split(pattern)` gives them.
pub fn split_text(text: &str, pattern: &str) -> (pieces: Vec<String>)
    requires
        pattern@.len() > 0,
    ensures
        string_views(pieces@) == split_str(text@, pattern@),
{
    let chars = text_chars(text);
    let pat = text_chars(pattern);
    let n = chars.len();
    let m = pat.len();
    let mut pieces: Vec<String> = Vec::new();
    let mut pos: usize = 0;
    assert(text@.subrange(0, n as int) =~= text@);
    loop
        invariant
            chars@ == text@,
            pat@ == pattern@,
            n == text@.len(),
            m == pattern@.len(),
            m > 0,
            pos <= n,
            string_views(pieces@) + split_str(text@.subrange(pos as int, n as int), pattern@)
                == split_str(text@, pattern@),
        decreases n - pos,
    {
        let ghost before = string_views(pieces@);
        let ghost rest = text@.subrange(pos as int, n as int);
        proof {
            lemma_find_from_shift(text@, pattern@, pos as int, 0);
            lemma_find_from_bounds(text@, pattern@, pos as int);
        }
        match find_chars(&chars, &pat, pos) {
            Some(i) => {
                let piece = text.substring_char(pos, i);
                pieces.push(String::from_str(piece));
                proof {
                    assert(string_views(pieces@) =~= before.push(piece@));
                    assert(rest.subrange(0, i - pos) =~= piece@);
                    assert(rest.subrange(i - pos + m, rest.len() as int) =~= text@.subrange(
                        i + m,
                        n as int,
                    ));
                    assert(split_str(rest, pattern@) == seq![piece@] + split_str(
                        text@.subrange(i + m, n as int),
                        pattern@,
                    ));
                    assert(before.push(piece@) + split_str(text@.subrange(i + m, n as int), pattern@)
                        =~= before + split_str(rest, pattern@));
                }
                pos = i + m;
            },
            None => {
                let piece = text.substring_char(pos, n);
                pieces.push(String::from_str(piece));
                proof {
                    assert(string_views(pieces@) =~= before.push(piece@));
                    assert(before.push(piece@) =~= before + seq![rest]);
                }
                return pieces;
            },
        }
    }
}

/// Returns the pieces written one after the other with `sep` between each
/// two, as `pieces.join(sep)` gives them.
pub fn join_text(pieces: &Vec<String>, sep: &str) -> (s: String)
    ensures
        s@ == join_str(string_views(pieces@), sep@),
{
    let ghost ps = string_views(pieces@);
    if pieces.len() == 0 {
        return String::new();
    }
    let mut s = pieces[0].clone();
    let mut i: usize = 1;
    assert(ps.take(1) =~= seq![ps[0]]);
    while i < pieces.len()
        invariant
            ps == string_views(pieces@),
            1 <= i <= pieces@.len(),
            s@ == join_str(ps.take(i as int), sep@),
        decreases pieces@.len() - i,
    {
        s.append(sep);
        s.append(pieces[i].as_str());
        proof {
            assert(ps.take(i + 1) =~= ps.take(i as int).push(ps[i as int]));
            lemma_join_push(ps.take(i as int), ps[i as int], sep@);
        }
        i = i + 1;
    }
    assert(ps.take(pieces@.len() as int) =~= ps);
    s
}

} // verus!
