//! Recognising the text of a floating-point number: the grammar that the
//! standard library documents for parsing an `f64` from a string.
//!
//! ```text
//! Float  ::= Sign? ( 'inf' | 'infinity' | 'nan' | Number )
//! Number ::= ( Digit+ | Digit+ '.' Digit* | Digit* '.' Digit+ ) Exp?
//! Exp    ::= 'e' Sign? Digit+
//! Sign   ::= [+-]
//! Digit  ::= [0-9]
//! ```
//!
//! Letters are matched without regard to case. The library keeps the numbers
//! of an orbit trap as text; this grammar tells which texts a number can be
//! read from.

use vstd::prelude::*;

use crate::text::{all_digits, is_digit};

verus! {

/// `+` or `-`.
pub open spec fn is_sign(c: char) -> bool {
    c == '+' || c == '-'
}

/// The mark of an exponent: `e` or `E`.
pub open spec fn is_exp_mark(c: char) -> bool {
    c == 'e' || c == 'E'
}

/// `s` without its leading sign, if it has one.
pub open spec fn unsigned_part(s: Seq<char>) -> Seq<char> {
    if s.len() > 0 && is_sign(s[0]) {
        s.drop_first()
    } else {
        s
    }
}

/// `c` is the lower-case ASCII letter `w` or its upper-case form.
pub open spec fn same_letter(c: char, w: char) -> bool {
    c == w || c as int + 32 == w as int
}

/// `s` spells the lower-case word `w`, in any case.
pub open spec fn spells_word(s: Seq<char>, w: Seq<char>) -> bool {
    s.len() == w.len() && forall|i: int| 0 <= i < s.len() ==> same_letter(#[trigger] s[i], w[i])
}

/// `s` is one of the words for an infinite number or for no number.
pub open spec fn special_word(s: Seq<char>) -> bool {
    ||| spells_word(s, seq!['i', 'n', 'f'])
    ||| spells_word(s, seq!['i', 'n', 'f', 'i', 'n', 'i', 't', 'y'])
    ||| spells_word(s, seq!['n', 'a', 'n'])
}

/// `m` is digits with at most one `.` among them, and at least one digit.
pub open spec fn mantissa(m: Seq<char>) -> bool {
    ||| m.len() > 0 && all_digits(m)
    ||| exists|d: int|
        0 <= d < m.len() && m[d] == '.' && m.len() >= 2 && all_digits(m.take(d)) && all_digits(
            #[trigger] m.skip(d + 1),
        )
}

/// `e` is digits after an optional sign, with at least one digit.
pub open spec fn exponent(e: Seq<char>) -> bool {
    unsigned_part(e).len() > 0 && all_digits(unsigned_part(e))
}

/// `b` is a mantissa, followed by an exponent mark and an exponent if it
/// has one.
pub open spec fn number_text(b: Seq<char>) -> bool {
    ||| mantissa(b)
    ||| exists|k: int|
        0 <= k < b.len() && is_exp_mark(b[k]) && mantissa(b.take(k)) && exponent(
            #[trigger] b.skip(k + 1),
        )
}

/// `s` is the text of a floating-point number: an optional sign, then a
/// word for infinity or for no number, or a mantissa with an optional
/// exponent.
pub open spec fn float_literal(s: Seq<char>) -> bool {
    special_word(unsigned_part(s)) || number_text(unsigned_part(s))
}

/// Every character of a mantissa is a digit or `.`.
proof fn lemma_mantissa_chars(m: Seq<char>)
    requires
        mantissa(m),
    ensures
        forall|i: int| 0 <= i < m.len() ==> is_digit(#[trigger] m[i]) || m[i] == '.',
{
    if !(m.len() > 0 && all_digits(m)) {
        let d = choose|d: int|
            0 <= d < m.len() && m[d] == '.' && m.len() >= 2 && all_digits(m.take(d)) && all_digits(
                #[trigger] m.skip(d + 1),
            );
        assert forall|i: int| 0 <= i < m.len() implies is_digit(#[trigger] m[i]) || m[i] == '.' by {
            if i < d {
                assert(m.take(d)[i] == m[i]);
            } else if i > d {
                assert(m.skip(d + 1)[i - d - 1] == m[i]);
            }
        }
    }
}

/// Returns the characters of `v` from `lo` up to `hi`.
fn copy_range(v: &Vec<char>, lo: usize, hi: usize) -> (r: Vec<char>)
    requires
        lo <= hi <= v@.len(),
    ensures
        r@ == v@.subrange(lo as int, hi as int),
{
    let mut r: Vec<char> = Vec::new();
    let mut i = lo;
    while i < hi
        invariant
            lo <= i <= hi <= v@.len(),
            r@ == v@.subrange(lo as int, i as int),
        decreases hi - i,
    {
        r.push(v[i]);
        i = i + 1;
    }
    r
}

/// Returns whether every character of `v` is a decimal digit.
fn digits_only(v: &Vec<char>) -> (r: bool)
    ensures
        r == all_digits(v@),
{
    let mut i: usize = 0;
    while i < v.len()
        invariant
            i <= v@.len(),
            forall|j: int| 0 <= j < i ==> is_digit(#[trigger] v@[j]),
        decreases v@.len() - i,
    {
        if !('0' <= v[i] && v[i] <= '9') {
            return false;
        }
        i = i + 1;
    }
    true
}

/// Returns the position of the first `a` or `b` in `v` (its length when
/// there is none).
fn first_of(v: &Vec<char>, a: char, b: char) -> (r: usize)
    ensures
        r <= v@.len(),
        forall|j: int| 0 <= j < r ==> #[trigger] v@[j] != a && v@[j] != b,
        r < v@.len() ==> v@[r as int] == a || v@[r as int] == b,
{
    let mut i: usize = 0;
    while i < v.len()
        invariant
            i <= v@.len(),
            forall|j: int| 0 <= j < i ==> #[trigger] v@[j] != a && v@[j] != b,
        decreases v@.len() - i,
    {
        if v[i] == a || v[i] == b {
            return i;
        }
        i = i + 1;
    }
    i
}

/// Returns whether `m` is a mantissa.
fn mantissa_ok(m: &Vec<char>) -> (r: bool)
    ensures
        r == mantissa(m@),
{
    let n = m.len();
    let d = first_of(m, '.', '.');
    if d == n {
        let r = n > 0 && digits_only(m);
        assert(!exists|d2: int|
            0 <= d2 < m@.len() && m@[d2] == '.' && m@.len() >= 2 && all_digits(m@.take(d2))
                && all_digits(#[trigger] m@.skip(d2 + 1)));
        r
    } else {
        let before = copy_range(m, 0, d);
        let after = copy_range(m, d + 1, n);
        assert(before@ == m@.take(d as int));
        assert(after@ == m@.skip(d + 1));
        assert(!all_digits(m@)) by {
            assert(!is_digit(m@[d as int]));
        }
        let r = n >= 2 && digits_only(&before) && digits_only(&after);
        proof {
            if exists|d2: int|
                0 <= d2 < m@.len() && m@[d2] == '.' && m@.len() >= 2 && all_digits(m@.take(d2))
                    && all_digits(#[trigger] m@.skip(d2 + 1)) {
                let d2 = choose|d2: int|
                    0 <= d2 < m@.len() && m@[d2] == '.' && m@.len() >= 2 && all_digits(m@.take(d2))
                        && all_digits(#[trigger] m@.skip(d2 + 1));
                if d2 > d {
                    assert(m@.take(d2)[d as int] == m@[d as int]);
                }
                assert(d2 == d);
            }
        }
        r
    }
}

/// Returns whether `e` is an exponent.
fn exponent_ok(e: &Vec<char>) -> (r: bool)
    ensures
        r == exponent(e@),
{
    let n = e.len();
    if n > 0 && (e[0] == '+' || e[0] == '-') {
        let digits = copy_range(e, 1, n);
        assert(digits@ == e@.drop_first());
        digits.len() > 0 && digits_only(&digits)
    } else {
        n > 0 && digits_only(e)
    }
}

/// Returns whether `b` is a mantissa with an optional exponent.
fn number_ok(b: &Vec<char>) -> (r: bool)
    ensures
        r == number_text(b@),
{
    let n = b.len();
    let k = first_of(b, 'e', 'E');
    if k == n {
        assert(!exists|k2: int|
            0 <= k2 < b@.len() && is_exp_mark(b@[k2]) && mantissa(b@.take(k2)) && exponent(
                #[trigger] b@.skip(k2 + 1),
            ));
        mantissa_ok(b)
    } else {
        let before = copy_range(b, 0, k);
        let after = copy_range(b, k + 1, n);
        assert(before@ == b@.take(k as int));
        assert(after@ == b@.skip(k + 1));
        proof {
            if mantissa(b@) {
                lemma_mantissa_chars(b@);
                assert(is_digit(b@[k as int]) || b@[k as int] == '.');
            }
            if exists|k2: int|
                0 <= k2 < b@.len() && is_exp_mark(b@[k2]) && mantissa(b@.take(k2)) && exponent(
                    #[trigger] b@.skip(k2 + 1),
                ) {
                let k2 = choose|k2: int|
                    0 <= k2 < b@.len() && is_exp_mark(b@[k2]) && mantissa(b@.take(k2)) && exponent(
                        #[trigger] b@.skip(k2 + 1),
                    );
                if k2 > k {
                    lemma_mantissa_chars(b@.take(k2));
                    assert(b@.take(k2)[k as int] == b@[k as int]);
                }
                assert(k2 == k);
            }
        }
        mantissa_ok(&before) && exponent_ok(&after)
    }
}

/// Returns whether `s` spells the lower-case word `w`, in any case.
fn spells_word_ok(s: &Vec<char>, w: &Vec<char>) -> (r: bool)
    requires
        forall|i: int| 0 <= i < w@.len() ==> 'a' <= #[trigger] w@[i] <= 'z',
    ensures
        r == spells_word(s@, w@),
{
    if s.len() != w.len() {
        return false;
    }
    let mut i: usize = 0;
    while i < s.len()
        invariant
            s@.len() == w@.len(),
            i <= s@.len(),
            forall|i: int| 0 <= i < w@.len() ==> 'a' <= #[trigger] w@[i] <= 'z',
            forall|j: int| 0 <= j < i ==> same_letter(#[trigger] s@[j], w@[j]),
        decreases s@.len() - i,
    {
        let c = s[i];
        let l = w[i];
        assert('a' <= l <= 'z');
        if !(c == l || ('A' <= c && c <= 'Z' && (c as u32) + 32 == (l as u32))) {
            return false;
        }
        assert(same_letter(s@[i as int], w@[i as int]));
        i = i + 1;
    }
    true
}

/// Returns whether `text` is the text of a floating-point number, that is
/// whether `text.parse::<f64>()` reads a number from it.
pub fn is_float_literal(text: &str) -> (r: bool)
    ensures
        r == float_literal(text@),
{
    let chars = crate::text::text_chars(text);
    let n = chars.len();
    let b = if n > 0 && (chars[0] == '+' || chars[0] == '-') {
        copy_range(&chars, 1, n)
    } else {
        copy_range(&chars, 0, n)
    };
    assert(b@ == unsigned_part(text@));
    let inf = vec!['i', 'n', 'f'];
    let infinity = vec!['i', 'n', 'f', 'i', 'n', 'i', 't', 'y'];
    let nan = vec!['n', 'a', 'n'];
    assert(inf@ == seq!['i', 'n', 'f']);
    assert(infinity@ == seq!['i', 'n', 'f', 'i', 'n', 'i', 't', 'y']);
    assert(nan@ == seq!['n', 'a', 'n']);
    spells_word_ok(&b, &inf) || spells_word_ok(&b, &infinity) || spells_word_ok(&b, &nan)
        || number_ok(&b)
}

} // verus!
