//! Character-level text utilities for the phrase grammar: ASCII whitespace,
//! ASCII case folding, trimming, literal matching and decimal digit reading.

use vstd::prelude::*;

verus! {

/// The whitespace characters the grammar treats as flexible separators.
pub open spec fn is_space_char(c: char) -> bool {
    c == ' ' || c == '\t' || c == '\n' || c == '\r' || c == '\u{b}' || c == '\u{c}'
}

pub fn is_space_char_x(c: char) -> (r: bool)
    ensures
        r == is_space_char(c),
{
    c == ' ' || c == '\t' || c == '\n' || c == '\r' || c == '\u{b}' || c == '\u{c}'
}

/// ASCII case folding: uppercase letters map to lowercase, all else is kept.
pub open spec fn lower_char(c: char) -> char {
    match c {
        'A' => 'a',
        'B' => 'b',
        'C' => 'c',
        'D' => 'd',
        'E' => 'e',
        'F' => 'f',
        'G' => 'g',
        'H' => 'h',
        'I' => 'i',
        'J' => 'j',
        'K' => 'k',
        'L' => 'l',
        'M' => 'm',
        'N' => 'n',
        'O' => 'o',
        'P' => 'p',
        'Q' => 'q',
        'R' => 'r',
        'S' => 's',
        'T' => 't',
        'U' => 'u',
        'V' => 'v',
        'W' => 'w',
        'X' => 'x',
        'Y' => 'y',
        'Z' => 'z',
        _ => c,
    }
}

pub fn lower_char_x(c: char) -> (r: char)
    ensures
        r == lower_char(c),
{
    match c {
        'A' => 'a',
        'B' => 'b',
        'C' => 'c',
        'D' => 'd',
        'E' => 'e',
        'F' => 'f',
        'G' => 'g',
        'H' => 'h',
        'I' => 'i',
        'J' => 'j',
        'K' => 'k',
        'L' => 'l',
        'M' => 'm',
        'N' => 'n',
        'O' => 'o',
        'P' => 'p',
        'Q' => 'q',
        'R' => 'r',
        'S' => 's',
        'T' => 't',
        'U' => 'u',
        'V' => 'v',
        'W' => 'w',
        'X' => 'x',
        'Y' => 'y',
        'Z' => 'z',
        _ => c,
    }
}

pub open spec fn trim_start(s: Seq<char>) -> Seq<char>
    decreases s.len(),
{
    if s.len() > 0 && is_space_char(s[0]) {
        trim_start(s.drop_first())
    } else {
        s
    }
}

pub open spec fn trim_end(s: Seq<char>) -> Seq<char>
    decreases s.len(),
{
    if s.len() > 0 && is_space_char(s.last()) {
        trim_end(s.drop_last())
    } else {
        s
    }
}

/// The grammar's input normalization: trim, then fold case.
pub open spec fn normalize(s: Seq<char>) -> Seq<char> {
    trim_end(trim_start(s)).map_values(|c: char| lower_char(c))
}

proof fn lemma_trim_start_skips(s: Seq<char>, i: int)
    requires
        0 <= i <= s.len(),
        forall|j: int| 0 <= j < i ==> is_space_char(#[trigger] s[j]),
        i == s.len() || !is_space_char(s[i as int]),
    ensures
        trim_start(s) =~= s.subrange(i, s.len() as int),
    decreases i,
{
    if i == 0 {
        if s.len() > 0 && is_space_char(s[0]) {
            assert(false);
        }
        assert(trim_start(s) =~= s.subrange(0, s.len() as int));
    } else {
        let s1 = s.drop_first();
        assert(is_space_char(s[0]));
        assert(forall|j: int| 0 <= j < i - 1 ==> is_space_char(#[trigger] s1[j]));
        lemma_trim_start_skips(s1, i - 1);
        assert(s1.subrange(i - 1, s1.len() as int) =~= s.subrange(i, s.len() as int));
    }
}

proof fn lemma_trim_end_skips(s: Seq<char>, e: int)
    requires
        0 <= e <= s.len(),
        forall|j: int| e <= j < s.len() ==> is_space_char(#[trigger] s[j]),
        e == 0 || !is_space_char(s[e - 1]),
    ensures
        trim_end(s) =~= s.subrange(0, e),
    decreases s.len(),
{
    if e == s.len() {
        if s.len() > 0 && is_space_char(s.last()) {
            assert(false);
        }
        assert(trim_end(s) =~= s.subrange(0, e));
    } else {
        let s1 = s.drop_last();
        assert(is_space_char(s.last()));
        assert(forall|j: int| e <= j < s1.len() ==> is_space_char(#[trigger] s1[j]));
        lemma_trim_end_skips(s1, e);
        assert(s1.subrange(0, e) =~= s.subrange(0, e));
    }
}

/// Trims and case-folds the input, as `normalize` describes.
pub fn normalize_x(s: &Vec<char>) -> (r: Vec<char>)
    ensures
        r@ == normalize(s@),
{
    let n: usize = s.len();
    let mut start: usize = 0;
    while start < n && is_space_char_x(s[start])
        invariant
            0 <= start <= n,
            n == s@.len(),
            forall|j: int| 0 <= j < start ==> is_space_char(#[trigger] s@[j]),
        decreases n - start,
    {
        start = start + 1;
    }
    let mut end: usize = n;
    while end > start && is_space_char_x(s[end - 1])
        invariant
            start <= end <= n,
            n == s@.len(),
            forall|j: int| 0 <= j < start ==> is_space_char(#[trigger] s@[j]),
            start == n || !is_space_char(s@[start as int]),
            forall|j: int| end <= j < n ==> is_space_char(#[trigger] s@[j]),
        decreases end,
    {
        end = end - 1;
    }
    proof {
        lemma_trim_start_skips(s@, start as int);
        if start == end {
            lemma_trim_end_skips(s@.subrange(start as int, n as int), 0);
        } else {
            lemma_trim_end_skips(s@.subrange(start as int, n as int), end - start);
        }
    }
    let ghost t = trim_end(trim_start(s@));
    let mut r: Vec<char> = Vec::new();
    let mut i: usize = start;
    while i < end
        invariant
            start <= i <= end <= n,
            n == s@.len(),
            t =~= s@.subrange(start as int, end as int),
            r@ =~= t.subrange(0, i - start).map_values(|c: char| lower_char(c)),
        decreases end - i,
    {
        r.push(lower_char_x(s[i]));
        proof {
            assert(t.subrange(0, i + 1 - start) =~= t.subrange(0, i - start).push(s@[i as int]));
            assert(t.subrange(0, i + 1 - start).map_values(|c: char| lower_char(c)) =~= t.subrange(
                0,
                i - start,
            ).map_values(|c: char| lower_char(c)).push(lower_char(s@[i as int])));
        }
        i = i + 1;
    }
    proof {
        assert(t.subrange(0, end - start) =~= t);
    }
    r
}

/// Collects a string's characters, so the grammar can index them.
pub fn chars_vec(s: &str) -> (r: Vec<char>)
    ensures
        r@ == s@,
{
    let n: usize = s.unicode_len();
    let mut r: Vec<char> = Vec::new();
    let mut i: usize = 0;
    while i < n
        invariant
            0 <= i <= n,
            n == s@.len(),
            r@ =~= s@.subrange(0, i as int),
        decreases n - i,
    {
        r.push(s.get_char(i));
        proof {
            assert(s@.subrange(0, i + 1) =~= s@.subrange(0, i as int).push(s@[i as int]));
        }
        i = i + 1;
    }
    proof {
        assert(s@.subrange(0, n as int) =~= s@);
    }
    r
}

/// Character-wise string equality.
pub fn str_eq(a: &str, b: &str) -> (r: bool)
    ensures
        r == (a@ == b@),
{
    let na: usize = a.unicode_len();
    let nb: usize = b.unicode_len();
    if na != nb {
        return false;
    }
    let mut i: usize = 0;
    while i < na
        invariant
            0 <= i <= na,
            na == a@.len(),
            na == b@.len(),
            forall|j: int| 0 <= j < i ==> a@[j] == b@[j],
        decreases na - i,
    {
        if a.get_char(i) != b.get_char(i) {
            return false;
        }
        i = i + 1;
    }
    proof {
        assert(a@ =~= b@);
    }
    true
}

/// Whether `pat` occurs in `s` at position `i`.
pub open spec fn matches_at(s: Seq<char>, i: int, pat: Seq<char>) -> bool {
    0 <= i && i + pat.len() <= s.len() && s.subrange(i, i + pat.len()) == pat
}

/// Compares `s` at position `i` against a literal pattern.
pub fn matches_at_x(s: &Vec<char>, i: usize, pat: &str) -> (r: bool)
    ensures
        r == matches_at(s@, i as int, pat@),
{
    let pn: usize = pat.unicode_len();
    let n: usize = s.len();
    if i > n || pn > n - i {
        proof {
            assert(!matches_at(s@, i as int, pat@));
        }
        return false;
    }
    let mut k: usize = 0;
    while k < pn
        invariant
            0 <= k <= pn,
            pn == pat@.len(),
            n == s@.len(),
            i + pn <= n,
            forall|j: int| 0 <= j < k ==> s@[i + j] == pat@[j],
        decreases pn - k,
    {
        if s[i + k] != pat.get_char(k) {
            proof {
                assert(s@.subrange(i as int, i + pat@.len())[k as int] != pat@[k as int]);
            }
            return false;
        }
        k = k + 1;
    }
    proof {
        assert(s@.subrange(i as int, i + pat@.len()) =~= pat@);
    }
    true
}

/// First position at or after `i` that holds a non-space character.
pub open spec fn skip_spaces(s: Seq<char>, i: int) -> int
    decreases s.len() - i,
{
    if 0 <= i < s.len() && is_space_char(s[i]) {
        skip_spaces(s, i + 1)
    } else {
        i
    }
}

pub fn skip_spaces_x(s: &Vec<char>, i: usize) -> (r: usize)
    requires
        i <= s@.len(),
    ensures
        r == skip_spaces(s@, i as int),
        i <= r <= s@.len(),
{
    let n: usize = s.len();
    let mut k: usize = i;
    while k < n && is_space_char_x(s[k])
        invariant
            i <= k <= n,
            n == s@.len(),
            skip_spaces(s@, i as int) == skip_spaces(s@, k as int),
        decreases n - k,
    {
        k = k + 1;
    }
    k
}

pub open spec fn is_digit(c: char) -> bool {
    '0' <= c && c <= '9'
}

pub fn is_digit_x(c: char) -> (r: bool)
    ensures
        r == is_digit(c),
{
    '0' <= c && c <= '9'
}

pub open spec fn digit_val(c: char) -> int {
    c as int - '0' as int
}

pub fn digit_val_x(c: char) -> (r: u64)
    requires
        is_digit(c),
    ensures
        r == digit_val(c),
        r <= 9,
{
    (c as u32 - '0' as u32) as u64
}

/// End of the run of decimal digits that starts at `i`.
pub open spec fn digits_end(s: Seq<char>, i: int) -> int
    decreases s.len() - i,
{
    if 0 <= i < s.len() && is_digit(s[i]) {
        digits_end(s, i + 1)
    } else {
        i
    }
}

/// Every position in a digit run holds a digit.
pub proof fn lemma_digits_end_digits(s: Seq<char>, i: int)
    requires
        0 <= i <= s.len(),
    ensures
        i <= digits_end(s, i) <= s.len(),
        forall|k: int| i <= k < digits_end(s, i) ==> is_digit(#[trigger] s[k]),
    decreases s.len() - i,
{
    if i < s.len() && is_digit(s[i]) {
        lemma_digits_end_digits(s, i + 1);
    }
}

pub fn digits_end_x(s: &Vec<char>, i: usize) -> (r: usize)
    requires
        i <= s@.len(),
    ensures
        r == digits_end(s@, i as int),
        i <= r <= s@.len(),
        forall|k: int| i <= k < r ==> is_digit(#[trigger] s@[k]),
{
    proof {
        lemma_digits_end_digits(s@, i as int);
    }
    let n: usize = s.len();
    let mut k: usize = i;
    while k < n && is_digit_x(s[k])
        invariant
            i <= k <= n,
            n == s@.len(),
            digits_end(s@, i as int) == digits_end(s@, k as int),
        decreases n - k,
    {
        k = k + 1;
    }
    k
}

/// The value of the decimal digits `s[i..j]`.
pub open spec fn digits_value(s: Seq<char>, i: int, j: int) -> int
    decreases j - i,
{
    if j <= i {
        0
    } else {
        digits_value(s, i, j - 1) * 10 + digit_val(s[j - 1])
    }
}

/// Digit strings read as nonnegative values.
pub proof fn lemma_digits_value_nonneg(s: Seq<char>, i: int, j: int)
    requires
        forall|k: int| i <= k < j ==> is_digit(#[trigger] s[k]),
        0 <= i,
        j <= s.len(),
    ensures
        digits_value(s, i, j) >= 0,
        i < j ==> digits_value(s, i, j) >= digits_value(s, i, j - 1),
    decreases j - i,
{
    if i < j {
        lemma_digits_value_nonneg(s, i, j - 1);
        assert(digits_value(s, i, j - 1) * 10 >= digits_value(s, i, j - 1)) by (nonlinear_arith)
            requires
                digits_value(s, i, j - 1) >= 0,
        ;
    }
}

/// The digit character for a value below ten.
pub open spec fn digit_char(d: int) -> char {
    if d == 0 {
        '0'
    } else if d == 1 {
        '1'
    } else if d == 2 {
        '2'
    } else if d == 3 {
        '3'
    } else if d == 4 {
        '4'
    } else if d == 5 {
        '5'
    } else if d == 6 {
        '6'
    } else if d == 7 {
        '7'
    } else if d == 8 {
        '8'
    } else {
        '9'
    }
}

/// The one-character string of a digit.
pub fn digit_str(d: u32) -> (r: &'static str)
    requires
        d <= 9,
    ensures
        r@ == seq![digit_char(d as int)],
{
    proof {
        reveal_strlit("0");
        reveal_strlit("1");
        reveal_strlit("2");
        reveal_strlit("3");
        reveal_strlit("4");
        reveal_strlit("5");
        reveal_strlit("6");
        reveal_strlit("7");
        reveal_strlit("8");
        reveal_strlit("9");
    }
    let r: &'static str = match d {
        0 => "0",
        1 => "1",
        2 => "2",
        3 => "3",
        4 => "4",
        5 => "5",
        6 => "6",
        7 => "7",
        8 => "8",
        _ => "9",
    };
    proof {
        assert(r@ =~= seq![digit_char(d as int)]);
    }
    r
}

/// The decimal digits of `n`, most significant first, no padding.
pub open spec fn spec_decimal(n: int) -> Seq<char>
    decreases n,
{
    if n <= 9 {
        seq![digit_char(n)]
    } else {
        spec_decimal(n / 10).push(digit_char(n % 10))
    }
}

/// Appends the decimal digits of `n`.
pub fn push_decimal(out: &mut String, n: u64)
    ensures
        final(out)@ == old(out)@ + spec_decimal(n as int),
    decreases n,
{
    if n <= 9 {
        out.append(digit_str(n as u32));
    } else {
        proof {
            assert(n / 10 < n && n % 10 <= 9) by (nonlinear_arith)
                requires
                    n > 9,
            ;
        }
        push_decimal(out, n / 10);
        out.append(digit_str((n % 10) as u32));
        proof {
            assert(old(out)@ + spec_decimal(n as int / 10) + seq![
                digit_char(n as int % 10),
            ] =~= old(out)@ + spec_decimal(n as int));
        }
    }
}

/// Two decimal digits, zero padded: the form calendar fields print in.
pub open spec fn spec_two_decimal(n: int) -> Seq<char> {
    seq![digit_char(n / 10), digit_char(n % 10)]
}

/// Appends `n` as exactly two digits.
pub fn push_two_decimal(out: &mut String, n: u32)
    requires
        n <= 99,
    ensures
        final(out)@ == old(out)@ + spec_two_decimal(n as int),
{
    out.append(digit_str(n / 10));
    out.append(digit_str(n % 10));
    proof {
        assert(old(out)@ + seq![digit_char(n as int / 10)] + seq![
            digit_char(n as int % 10),
        ] =~= old(out)@ + spec_two_decimal(n as int));
    }
}

/// Reads the decimal digits `s[i..j]`, saturating just above `cap`: the
/// result equals the value where the value is at most `cap`, and `cap + 1`
/// where it is larger.
pub fn digits_value_capped(s: &Vec<char>, i: usize, j: usize, cap: u64) -> (r: u64)
    requires
        i <= j <= s@.len(),
        forall|k: int| i <= k < j ==> is_digit(#[trigger] s@[k]),
        cap < 0x1000_0000,
    ensures
        digits_value(s@, i as int, j as int) <= cap ==> r == digits_value(s@, i as int, j as int),
        digits_value(s@, i as int, j as int) > cap ==> r == cap + 1,
{
    let mut k: usize = i;
    let mut acc: u64 = 0;
    while k < j
        invariant
            i <= k <= j <= s@.len(),
            forall|t: int| i <= t < j ==> is_digit(#[trigger] s@[t]),
            cap < 0x1000_0000,
            digits_value(s@, i as int, k as int) <= cap ==> acc == digits_value(
                s@,
                i as int,
                k as int,
            ),
            digits_value(s@, i as int, k as int) > cap ==> acc == cap + 1,
            acc <= cap + 1,
        decreases j - k,
    {
        let d: u64 = digit_val_x(s[k]);
        proof {
            lemma_digits_value_nonneg(s@, i as int, k + 1);
            lemma_digits_value_nonneg(s@, i as int, k as int);
            if digits_value(s@, i as int, k as int) > cap {
                assert(digits_value(s@, i as int, k as int) * 10 >= digits_value(
                    s@,
                    i as int,
                    k as int,
                )) by (nonlinear_arith)
                    requires
                        digits_value(s@, i as int, k as int) >= 0,
                ;
            }
        }
        if acc > cap {
            acc = cap + 1;
        } else {
            acc = acc * 10 + d;
            if acc > cap {
                acc = cap + 1;
            }
        }
        k = k + 1;
    }
    acc
}

} // verus!
