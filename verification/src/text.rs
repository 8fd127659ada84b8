//! Text handling for the explorer's save files: the digit checksum that ends
//! every save file, unsigned decimal numbers, and picking the text between two
//! delimiters.

use vstd::prelude::*;

verus! {

broadcast use vstd::string::group_string_axioms;

// ---------------------------------------------------------------------------
// Specifications
// ---------------------------------------------------------------------------

/// An ASCII decimal digit.
pub open spec fn is_digit(c: char) -> bool {
    '0' <= c && c <= '9'
}

/// The value of an ASCII decimal digit.
pub open spec fn digit_value(c: char) -> nat {
    (c as int - '0' as int) as nat
}

/// The character of a decimal digit `d < 10`.
pub open spec fn digit_char(d: nat) -> char {
    (d + '0' as nat) as char
}

/// The sum of the values of the decimal digits in `s`; every other character
/// counts for nothing.
pub open spec fn digit_sum(s: Seq<char>) -> nat
    decreases s.len(),
{
    if s.len() == 0 {
        0
    } else {
        digit_sum(s.drop_last()) + if is_digit(s.last()) {
            digit_value(s.last())
        } else {
            0
        }
    }
}

/// Every character of `s` is a decimal digit.
pub open spec fn all_digits(s: Seq<char>) -> bool {
    forall|i: int| 0 <= i < s.len() ==> is_digit(#[trigger] s[i])
}

/// The number written by the decimal digits `s` (most significant first).
pub open spec fn decimal_value(s: Seq<char>) -> nat
    decreases s.len(),
{
    if s.len() == 0 {
        0
    } else {
        decimal_value(s.drop_last()) * 10 + digit_value(s.last())
    }
}

/// The unsigned number that `s` spells, as Rust's `str::parse` for an unsigned
/// integer reads it: an optional leading `+`, then at least one decimal digit
/// and nothing else.
pub open spec fn unsigned_text_value(s: Seq<char>) -> Option<nat> {
    let digits = if s.len() > 0 && s[0] == '+' {
        s.drop_first()
    } else {
        s
    };
    if digits.len() > 0 && all_digits(digits) {
        Some(decimal_value(digits))
    } else {
        None
    }
}

/// `s` spells an unsigned number that fits in a `usize`, and that number is `v`.
pub open spec fn parses_as_usize(s: Seq<char>, v: usize) -> bool {
    unsigned_text_value(s) == Some(v as nat)
}

/// `s` spells no unsigned number that fits in a `usize`.
pub open spec fn parse_usize_fails(s: Seq<char>) -> bool {
    match unsigned_text_value(s) {
        Some(v) => v > usize::MAX,
        None => true,
    }
}

/// The shortest decimal notation of `n`, without sign or leading zeros.
pub open spec fn decimal_text(n: nat) -> Seq<char>
    decreases n,
{
    if n < 10 {
        seq![digit_char(n)]
    } else {
        decimal_text(n / 10).push(digit_char(n % 10))
    }
}

/// `p` occurs in `s` starting at position `i`.
pub open spec fn occurs_at(s: Seq<char>, p: Seq<char>, i: int) -> bool {
    0 <= i && i + p.len() <= s.len() && s.subrange(i, i + p.len()) == p
}

/// The first position at or after `i` where `p` occurs in `s`, if any.
pub open spec fn find_from(s: Seq<char>, p: Seq<char>, i: int) -> Option<int>
    decreases s.len() + 1 - i,
{
    if i < 0 || i + p.len() > s.len() {
        None
    } else if occurs_at(s, p, i) {
        Some(i)
    } else {
        find_from(s, p, i + 1)
    }
}

/// The first position where `p` occurs in `s`, if any (what `str::find` gives).
pub open spec fn find(s: Seq<char>, p: Seq<char>) -> Option<int> {
    find_from(s, p, 0)
}

/// The position of the last `'\n'` in `s`, if any.
pub open spec fn last_newline(s: Seq<char>) -> Option<int>
    decreases s.len(),
{
    if s.len() == 0 {
        None
    } else if s.last() == '\n' {
        Some(s.len() - 1)
    } else {
        last_newline(s.drop_last())
    }
}

/// The last line of `s`: everything after its last `'\n'` (all of `s` when it
/// has none).
pub open spec fn last_line(s: Seq<char>) -> Seq<char> {
    match last_newline(s) {
        Some(i) => s.subrange(i + 1, s.len() as int),
        None => s,
    }
}

/// A save file's text is intact: its last line spells a number, and that
/// number is the digit sum of everything before it.
pub open spec fn checksum_matches(s: Seq<char>) -> bool {
    match unsigned_text_value(last_line(s)) {
        Some(v) => v <= usize::MAX && digit_sum(s) - digit_sum(last_line(s)) == v,
        None => false,
    }
}

/// Where the text between the delimiters starts: just after the first
/// occurrence of `start`, or at the beginning when `start` does not occur.
pub open spec fn between_start(s: Seq<char>, start: Seq<char>) -> int {
    match find(s, start) {
        Some(i) => i + 1,
        None => 0,
    }
}

/// Where the text between the delimiters ends: at the first occurrence of
/// `end` after its start, or at the end of the text.
pub open spec fn between_end(s: Seq<char>, start: Seq<char>, end: Seq<char>) -> int {
    let b = between_start(s, start);
    match find(s.subrange(b, s.len() as int), end) {
        Some(j) => b + j,
        None => s.len() as int,
    }
}

/// How many times `c` occurs in `s`.
pub open spec fn count_char(s: Seq<char>, c: char) -> nat
    decreases s.len(),
{
    if s.len() == 0 {
        0
    } else {
        count_char(s.drop_last(), c) + if s.last() == c {
            1nat
        } else {
            0nat
        }
    }
}

/// The position of the first `c` in `s` (meaningful when `c` occurs in `s`).
pub open spec fn first_char_index(s: Seq<char>, c: char) -> int {
    choose|i: int| 0 <= i < s.len() && s[i] == c && forall|j: int| 0 <= j < i ==> s[j] != c
}

// ---------------------------------------------------------------------------
// Lemmas
// ---------------------------------------------------------------------------

/// Each character adds at most nine to a digit sum.
pub proof fn lemma_digit_sum_bound(s: Seq<char>)
    ensures
        digit_sum(s) <= 9 * s.len(),
    decreases s.len(),
{
    if s.len() > 0 {
        lemma_digit_sum_bound(s.drop_last());
    }
}

/// The digit sum of a concatenation is the sum of the digit sums.
pub proof fn lemma_digit_sum_append(a: Seq<char>, b: Seq<char>)
    ensures
        digit_sum(a + b) == digit_sum(a) + digit_sum(b),
    decreases b.len(),
{
    if b.len() == 0 {
        assert(a + b == a);
    } else {
        lemma_digit_sum_append(a, b.drop_last());
        assert((a + b).drop_last() == a + b.drop_last());
    }
}

/// The position `find_from` gives is an occurrence at or after where the search began.
pub proof fn lemma_find_from_bounds(s: Seq<char>, p: Seq<char>, i: int)
    ensures
        find_from(s, p, i) matches Some(k) ==> i <= k && occurs_at(s, p, k),
    decreases s.len() + 1 - i,
{
    if i < 0 || i + p.len() > s.len() {
    } else if occurs_at(s, p, i) {
    } else {
        lemma_find_from_bounds(s, p, i + 1);
    }
}

proof fn lemma_last_newline_bounds(s: Seq<char>)
    ensures
        last_newline(s) matches Some(i) ==> 0 <= i < s.len() && s[i] == '\n',
        last_newline(s) matches Some(i) ==> forall|j: int| i < j < s.len() ==> s[j] != '\n',
        last_newline(s) is None ==> forall|j: int| 0 <= j < s.len() ==> s[j] != '\n',
    decreases s.len(),
{
    if s.len() > 0 && s.last() != '\n' {
        let t = s.drop_last();
        lemma_last_newline_bounds(t);
        assert forall|j: int| 0 <= j < t.len() implies t[j] == s[j] by {}
    }
}

/// Splitting a digit string at its last digit.
proof fn lemma_decimal_value_push(s: Seq<char>, c: char)
    ensures
        decimal_value(s.push(c)) == decimal_value(s) * 10 + digit_value(c),
{
    assert(s.push(c).drop_last() == s);
}

/// The notation of `n` is made of digits and spells `n`.
pub proof fn lemma_decimal_text(n: nat)
    ensures
        decimal_text(n).len() >= 1,
        all_digits(decimal_text(n)),
        decimal_value(decimal_text(n)) == n,
        decimal_text(n)[0] != '0' || n == 0,
    decreases n,
{
    if n < 10 {
        lemma_digit_char(n);
        assert(decimal_text(n).drop_last() =~= Seq::<char>::empty());
        assert(decimal_value(Seq::<char>::empty()) == 0);
        assert(decimal_text(n).last() == digit_char(n));
    } else {
        lemma_decimal_text(n / 10);
        lemma_digit_char(n % 10);
        lemma_decimal_value_push(decimal_text(n / 10), digit_char(n % 10));
        let t = decimal_text(n / 10);
        assert forall|i: int| 0 <= i < t.len() + 1 implies is_digit(#[trigger] t.push(digit_char(n % 10))[i]) by {
            if i < t.len() {
                assert(is_digit(t[i]));
            }
        }
        assert(t.push(digit_char(n % 10))[0] == t[0]);
        assert((n / 10) * 10 + n % 10 == n);
    }
}

/// The character of a digit is a digit of that value.
pub proof fn lemma_digit_char(d: nat)
    requires
        d < 10,
    ensures
        is_digit(digit_char(d)),
        digit_value(digit_char(d)) == d,
        digit_char(d) == '0' <==> d == 0,
{
    assert((d + '0' as nat) as char as int == d + 48);
}

// ---------------------------------------------------------------------------
// Executable functions
// ---------------------------------------------------------------------------

/// The characters of `text`, in order.
pub fn text_chars(text: &str) -> (v: Vec<char>)
    ensures
        v@ == text@,
{
    let mut v: Vec<char> = Vec::new();
    for c in it: text.chars()
        invariant
            it.seq() == text@,
            v@ == text@.take(it.index()),
    {
        v.push(c);
    }
    assert(text@.take(text@.len() as int) == text@);
    v
}

/// Returns the sum of all the decimal digits in `text`.
///
/// This is the checksum written as the last line of every save file.
pub fn calculate_checksum(text: &str) -> (total: usize)
    requires
        text@.len() * 9 <= usize::MAX,
    ensures
        total == digit_sum(text@),
{
    let mut total: usize = 0;
    for c in it: text.chars()
        invariant
            it.seq() == text@,
            text@.len() * 9 <= usize::MAX,
            total == digit_sum(text@.take(it.index())),
    {
        let ghost before = text@.take(it.index());
        assert(text@.take(it.index() + 1).drop_last() == before);
        proof {
            lemma_digit_sum_bound(before);
        }
        if '0' <= c && c <= '9' {
            total = total + ((c as u32) - ('0' as u32)) as usize;
        }
    }
    assert(text@.take(text@.len() as int) == text@);
    total
}

/// Returns the number that `text` spells when it spells an unsigned number
/// that fits in a `usize` (an optional `+`, then decimal digits only), as
/// `text.parse::<usize>().ok()` does.
pub fn parse_usize(text: &str) -> (r: Option<usize>)
    ensures
        r matches Some(v) ==> parses_as_usize(text@, v),
        r is None ==> parse_usize_fails(text@),
{
    let chars = text_chars(text);
    let n = chars.len();
    let mut i: usize = 0;
    if n > 0 && chars[0] == '+' {
        i = 1;
    }
    let ghost digits = if n > 0 && chars@[0] == '+' {
        text@.drop_first()
    } else {
        text@
    };
    assert(digits == text@.subrange(i as int, n as int));
    if i == n {
        return None;
    }
    let start = i;
    let mut value: usize = 0;
    let mut overflowed = false;
    while i < n
        invariant
            chars@ == text@,
            n == chars@.len(),
            start <= i <= n,
            start < n,
            digits == text@.subrange(start as int, n as int),
            digits == (if text@.len() > 0 && text@[0] == '+' {
                text@.drop_first()
            } else {
                text@
            }),
            all_digits(text@.subrange(start as int, i as int)),
            !overflowed ==> value as nat == decimal_value(text@.subrange(start as int, i as int)),
            overflowed ==> decimal_value(text@.subrange(start as int, i as int)) > usize::MAX,
        decreases n - i,
    {
        let c = chars[i];
        if !('0' <= c && c <= '9') {
            assert(digits[i - start] == c);
            assert(!is_digit(digits[i - start]));
            assert(!all_digits(digits));
            assert(unsigned_text_value(text@) is None);
            return None;
        }
        let d = ((c as u32) - ('0' as u32)) as usize;
        proof {
            lemma_decimal_value_push(text@.subrange(start as int, i as int), c);
            assert(text@.subrange(start as int, i as int).push(c) == text@.subrange(
                start as int,
                i + 1,
            ));
        }
        if !overflowed {
            if value > (usize::MAX - d) / 10 {
                overflowed = true;
            } else {
                value = value * 10 + d;
            }
        } else {
            proof {
                let p = decimal_value(text@.subrange(start as int, i as int));
                assert(p * 10 + d > usize::MAX) by (nonlinear_arith)
                    requires
                        p > usize::MAX,
                ;
            }
        }
        i = i + 1;
    }
    assert(text@.subrange(start as int, n as int) == digits);
    if overflowed {
        None
    } else {
        Some(value)
    }
}

/// The text of a single decimal digit.
fn digit_text(d: usize) -> (s: &'static str)
    requires
        d < 10,
    ensures
        s@ == seq![digit_char(d as nat)],
{
    proof {
        reveal_strlit("0");
        reveal_strlit("1");
        reveal_strlit("2");
        reveal_strlit("3");
        reveal_strlit("4");
        reveal_strlit("5");
        reveal_strlit("6");
        reveal_strlit("7");
        reveal_strlit("8");
        reveal_strlit("9");
    }
    if d == 0 {
        "0"
    } else if d == 1 {
        "1"
    } else if d == 2 {
        "2"
    } else if d == 3 {
        "3"
    } else if d == 4 {
        "4"
    } else if d == 5 {
        "5"
    } else if d == 6 {
        "6"
    } else if d == 7 {
        "7"
    } else if d == 8 {
        "8"
    } else {
        "9"
    }
}

/// Appends the decimal notation of `n` to `out`.
pub fn push_decimal(out: &mut String, n: usize)
    ensures
        final(out)@ == old(out)@ + decimal_text(n as nat),
    decreases n,
{
    if n >= 10 {
        push_decimal(out, n / 10);
    }
    out.append(digit_text(n % 10));
}

/// Returns the decimal notation of `n`, as `n.to_string()` does.
pub fn usize_to_string(n: usize) -> (s: String)
    ensures
        s@ == decimal_text(n as nat),
{
    let mut s = String::new();
    push_decimal(&mut s, n);
    s
}

/// Returns whether the save file `text` is intact: its last line must spell
/// a number equal to the digit sum of the rest of the file.
pub fn check_chesum(text: &str) -> (ok: bool)
    requires
        text@.len() * 9 <= usize::MAX,
    ensures
        ok == checksum_matches(text@),
{
    let chars = text_chars(text);
    let n = chars.len();
    let mut k: usize = n;
    while k > 0 && chars[k - 1] != '\n'
        invariant
            chars@ == text@,
            n == text@.len(),
            k <= n,
            forall|j: int| k <= j < n ==> text@[j] != '\n',
        decreases k,
    {
        k = k - 1;
    }
    proof {
        lemma_last_newline_bounds(text@);
        if k > 0 {
            assert(last_newline(text@) == Some((k - 1) as int)) by {
                lemma_last_newline_at(text@, (k - 1) as int);
            }
        } else {
            assert(last_newline(text@) is None) by {
                lemma_last_newline_none(text@);
            }
        }
    }
    let last = text.substring_char(k, n);
    assert(last@ == last_line(text@));
    let checksum = calculate_checksum(text);
    let extra_sum = calculate_checksum(last);
    proof {
        assert(text@ == text@.subrange(0, k as int) + last@);
        lemma_digit_sum_append(text@.subrange(0, k as int), last@);
    }
    match parse_usize(last) {
        None => false,
        Some(real_sum) => checksum - extra_sum == real_sum,
    }
}

proof fn lemma_last_newline_at(s: Seq<char>, i: int)
    requires
        0 <= i < s.len(),
        s[i] == '\n',
        forall|j: int| i < j < s.len() ==> s[j] != '\n',
    ensures
        last_newline(s) == Some(i),
    decreases s.len(),
{
    if s.last() != '\n' {
        lemma_last_newline_at(s.drop_last(), i);
    }
}

proof fn lemma_last_newline_none(s: Seq<char>)
    requires
        forall|j: int| 0 <= j < s.len() ==> s[j] != '\n',
    ensures
        last_newline(s) is None,
    decreases s.len(),
{
    if s.len() > 0 {
        lemma_last_newline_none(s.drop_last());
    }
}

/// Returns the position of the first occurrence of `p` in `s` at or after
/// `from`, if any.
pub(crate) fn find_chars(s: &Vec<char>, p: &Vec<char>, from: usize) -> (r: Option<usize>)
    requires
        from <= s@.len(),
    ensures
        r matches Some(k) ==> find_from(s@, p@, from as int) == Some(k as int),
        r is None ==> find_from(s@, p@, from as int) is None,
{
    let n = s.len();
    let m = p.len();
    if m > n {
        proof {
            lemma_find_from_none_past(s@, p@, from as int);
        }
        return None;
    }
    let mut i = from;
    while m <= n - i
        invariant
            from <= i <= n,
            m == p@.len(),
            n == s@.len(),
            m <= n,
            find_from(s@, p@, from as int) == find_from(s@, p@, i as int),
        decreases n - i,
    {
        let mut j: usize = 0;
        let mut same = true;
        while j < m
            invariant
                i + m <= n,
                i <= n,
                m == p@.len(),
                n == s@.len(),
                j <= m,
                same == (forall|t: int| 0 <= t < j ==> s@[i + t] == p@[t]),
            decreases m - j,
        {
            if s[i + j] != p[j] {
                same = false;
            }
            j = j + 1;
        }
        if same {
            assert(s@.subrange(i as int, i + m) == p@);
            return Some(i);
        }
        assert(!occurs_at(s@, p@, i as int)) by {
            if occurs_at(s@, p@, i as int) {
                assert forall|t: int| 0 <= t < m implies s@[i + t] == p@[t] by {
                    assert(s@.subrange(i as int, i + m)[t] == s@[i + t]);
                }
            }
        }
        i = i + 1;
    }
    None
}

proof fn lemma_find_from_none_past(s: Seq<char>, p: Seq<char>, i: int)
    requires
        p.len() > s.len(),
    ensures
        find_from(s, p, i) is None,
{
}

/// A one-character ASCII pattern, where it occurs, stands on an ASCII
/// character of the text.
pub proof fn lemma_ascii_start_found(s: Seq<char>, p: Seq<char>)
    requires
        p.len() == 1,
        p[0] <= '\x7f',
    ensures
        match find(s, p) {
            Some(i) => i < s.len() && s[i] <= '\x7f',
            None => true,
        },
{
    lemma_find_from_bounds(s, p, 0);
    if let Some(i) = find(s, p) {
        assert(s.subrange(i, i + 1)[0] == s[i]);
    }
}

/// Returns the text between the first occurrence of `start_pattern` and the
/// next occurrence of `end_pattern` after it.
///
/// When `start_pattern` does not occur the text is taken from the beginning;
/// when `end_pattern` does not occur after it, the text runs to the end.
/// The text starts one byte past where `start_pattern` begins, so where it
/// occurs the character there must be a single byte: an ASCII character of
/// the text (as the first character of `"("`, `"["`, `"#"` is in every use).
pub fn get_str_between<'a>(text: &'a str, start_pattern: &str, end_pattern: &str) -> (r: &'a str)
    requires
        match find(text@, start_pattern@) {
            Some(i) => i < text@.len() && text@[i] <= '\x7f',
            None => true,
        },
    ensures
        r@ == text@.subrange(
            between_start(text@, start_pattern@),
            between_end(text@, start_pattern@, end_pattern@),
        ),
{
    let chars = text_chars(text);
    let start_chars = text_chars(start_pattern);
    let end_chars = text_chars(end_pattern);
    let n = chars.len();
    proof {
        lemma_find_from_bounds(text@, start_pattern@, 0);
    }
    let start = match find_chars(&chars, &start_chars, 0) {
        Some(i) => i + 1,
        None => 0,
    };
    assert(start == between_start(text@, start_pattern@));
    let rest: Vec<char> = slice_chars(&chars, start);
    let end = match find_chars(&rest, &end_chars, 0) {
        Some(j) => {
            proof {
                lemma_find_from_bounds(rest@, end_pattern@, 0);
            }
            start + j
        },
        None => n,
    };
    text.substring_char(start, end)
}

/// The characters of `s` from position `from` on.
fn slice_chars(s: &Vec<char>, from: usize) -> (r: Vec<char>)
    requires
        from <= s@.len(),
    ensures
        r@ == s@.subrange(from as int, s@.len() as int),
{
    let mut r: Vec<char> = Vec::new();
    let mut i = from;
    while i < s.len()
        invariant
            from <= i <= s@.len(),
            r@ == s@.subrange(from as int, i as int),
        decreases s@.len() - i,
    {
        r.push(s[i]);
        i = i + 1;
    }
    r
}


/// Returns how many times `c` occurs in `text`, and where it first occurs
/// (the length of `text` when it does not).
pub fn count_and_first(text: &str, c: char) -> (r: (usize, usize))
    ensures
        r.0 == count_char(text@, c),
        r.0 == 0 ==> r.1 == text@.len(),
        r.0 > 0 ==> r.1 == first_char_index(text@, c) && 0 <= r.1 < text@.len() && text@[r.1 as int] == c,
{
    let chars = text_chars(text);
    let n = chars.len();
    let mut count: usize = 0;
    let mut first: usize = n;
    let mut i: usize = 0;
    while i < n
        invariant
            chars@ == text@,
            n == text@.len(),
            i <= n,
            count == count_char(text@.take(i as int), c),
            count <= i,
            count == 0 ==> first == n,
            count > 0 ==> first < i && text@[first as int] == c && forall|j: int|
                0 <= j < first ==> text@[j] != c,
            count == 0 ==> forall|j: int| 0 <= j < i ==> text@[j] != c,
        decreases n - i,
    {
        assert(text@.take(i + 1).drop_last() == text@.take(i as int));
        if chars[i] == c {
            if count == 0 {
                first = i;
            }
            count = count + 1;
        }
        i = i + 1;
    }
    assert(text@.take(n as int) == text@);
    if count > 0 {
        assert(first_char_index(text@, c) == first as int) by {
            let k = first_char_index(text@, c);
            assert(0 <= first < n && text@[first as int] == c && forall|j: int|
                0 <= j < first ==> text@[j] != c);
            assert(0 <= k < n && text@[k] == c && forall|j: int| 0 <= j < k ==> text@[j] != c);
            if k < first {
            } else if k > first {
            }
        }
    }
    (count, first)
}


/// Counting a character in a concatenation.
pub proof fn lemma_count_char_append(a: Seq<char>, b: Seq<char>, c: char)
    ensures
        count_char(a + b, c) == count_char(a, c) + count_char(b, c),
    decreases b.len(),
{
    if b.len() == 0 {
        assert(a + b == a);
    } else {
        lemma_count_char_append(a, b.drop_last(), c);
        assert((a + b).drop_last() == a + b.drop_last());
    }
}

/// A character that does not occur is counted zero times.
pub proof fn lemma_count_char_absent(s: Seq<char>, c: char)
    requires
        forall|i: int| 0 <= i < s.len() ==> s[i] != c,
    ensures
        count_char(s, c) == 0,
    decreases s.len(),
{
    if s.len() > 0 {
        lemma_count_char_absent(s.drop_last(), c);
    }
}

/// In `a + [c] + b` with no `c` in `a`, the first `c` is the one after `a`.
pub proof fn lemma_first_char_index_after(a: Seq<char>, b: Seq<char>, c: char)
    requires
        forall|i: int| 0 <= i < a.len() ==> a[i] != c,
    ensures
        first_char_index(a + seq![c] + b, c) == a.len(),
        (a + seq![c] + b).subrange(0, a.len() as int) == a,
        (a + seq![c] + b).subrange(a.len() as int + 1, (a + seq![c] + b).len() as int) == b,
{
    let s = a + seq![c] + b;
    assert(s[a.len() as int] == c);
    assert(forall|j: int| 0 <= j < a.len() ==> s[j] == a[j]);
    let k = first_char_index(s, c);
    assert(0 <= k < s.len() && s[k] == c && forall|j: int| 0 <= j < k ==> s[j] != c);
    assert(k == a.len()) by {
        if k < a.len() {
            assert(s[k] == a[k]);
        } else if k > a.len() {
            assert(s[a.len() as int] == c);
        }
    }
    assert(s.subrange(0, a.len() as int) =~= a);
    assert(s.subrange(a.len() as int + 1, s.len() as int) =~= b);
}

/// The position of the last line break of `a + d` is the last character of
/// `a` when `a` ends with one and `d` holds none.
pub proof fn lemma_last_line_after(a: Seq<char>, d: Seq<char>)
    requires
        a.len() > 0,
        a.last() == '\n',
        forall|j: int| 0 <= j < d.len() ==> d[j] != '\n',
    ensures
        last_newline(a + d) == Some(a.len() - 1),
        last_line(a + d) == d,
    decreases d.len(),
{
    if d.len() == 0 {
        assert(a + d =~= a);
    } else {
        assert((a + d).drop_last() =~= a + d.drop_last());
        lemma_last_line_after(a, d.drop_last());
    }
    assert((a + d).subrange(a.len() as int, (a + d).len() as int) =~= d);
}

/// A text that is empty or ends with a line break, followed by the notation
/// of its own digit sum, passes the checksum check: this is how every save
/// file is closed.
pub proof fn lemma_appended_checksum_matches(t: Seq<char>)
    requires
        t.len() == 0 || t.last() == '\n',
        digit_sum(t) <= usize::MAX,
    ensures
        checksum_matches(t + decimal_text(digit_sum(t))),
{
    let d = decimal_text(digit_sum(t));
    let s = t + d;
    lemma_decimal_text_reads_back(digit_sum(t));
    assert forall|j: int| 0 <= j < d.len() implies d[j] != '\n' by {
        assert(is_digit(d[j]));
    }
    if t.len() == 0 {
        assert(s =~= d);
        lemma_last_newline_none(d);
    } else {
        lemma_last_line_after(t, d);
    }
    assert(last_line(s) == d);
    lemma_digit_sum_append(t, d);
}

/// The notation of a number spells that number back.
pub proof fn lemma_decimal_text_reads_back(n: nat)
    ensures
        unsigned_text_value(decimal_text(n)) == Some(n),
        forall|i: int| 0 <= i < decimal_text(n).len() ==> is_digit(#[trigger] decimal_text(n)[i]),
{
    lemma_decimal_text(n);
    assert(is_digit(decimal_text(n)[0]));
}

} // verus!
