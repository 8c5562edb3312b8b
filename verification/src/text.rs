//! Character-level helpers for the text header of a Radiance file:
//! whitespace as Rust's `char::is_whitespace` defines it, trimming,
//! splitting on whitespace and decimal `usize` numbers.
use vstd::prelude::*;

verus! {

/// The Unicode `White_Space` property, which `char::is_whitespace`,
/// `str::trim` and `str::split_whitespace` go by.
pub open spec fn white_space(c: char) -> bool {
    let u = c as u32;
    ||| 0x09 <= u <= 0x0d
    ||| u == 0x20
    ||| u == 0x85
    ||| u == 0xa0
    ||| u == 0x1680
    ||| 0x2000 <= u <= 0x200a
    ||| u == 0x2028
    ||| u == 0x2029
    ||| u == 0x202f
    ||| u == 0x205f
    ||| u == 0x3000
}

/// Whether `c` is whitespace.
pub fn is_white_space(c: char) -> (r: bool)
    ensures
        r == white_space(c),
{
    let u = c as u32;
    (0x09 <= u && u <= 0x0d) || u == 0x20 || u == 0x85 || u == 0xa0 || u == 0x1680 || (0x2000 <= u
        && u <= 0x200a) || u == 0x2028 || u == 0x2029 || u == 0x202f || u == 0x205f || u == 0x3000
}

/// `s` without its leading whitespace.
pub open spec fn trim_start(s: Seq<char>) -> Seq<char>
    decreases s.len(),
{
    if s.len() > 0 && white_space(s[0]) {
        trim_start(s.drop_first())
    } else {
        s
    }
}

/// `s` without its trailing whitespace.
pub open spec fn trim_end(s: Seq<char>) -> Seq<char>
    decreases s.len(),
{
    if s.len() > 0 && white_space(s.last()) {
        trim_end(s.drop_last())
    } else {
        s
    }
}

/// `s` without leading and trailing whitespace.
pub open spec fn trim(s: Seq<char>) -> Seq<char> {
    trim_end(trim_start(s))
}

/// `s` without the carriage returns at its end.
pub open spec fn strip_trailing_cr(s: Seq<char>) -> Seq<char>
    decreases s.len(),
{
    if s.len() > 0 && s.last() == '\r' {
        strip_trailing_cr(s.drop_last())
    } else {
        s
    }
}

/// The characters of `s`, in order.
pub fn chars_of(s: &str) -> (v: Vec<char>)
    ensures
        v@ == s@,
{
    let mut v: Vec<char> = Vec::new();
    for c in it: s.chars()
        invariant
            v@ == it.seq().take(it.index()),
    {
        v.push(c);
    }
    v
}

/// A copy of the characters `lo..hi` of `s`.
fn copy_range(s: &Vec<char>, lo: usize, hi: usize) -> (r: Vec<char>)
    requires
        lo <= hi <= s@.len(),
    ensures
        r@ == s@.subrange(lo as int, hi as int),
{
    let mut r: Vec<char> = Vec::new();
    let mut i = lo;
    while i < hi
        invariant
            lo <= i <= hi,
            hi <= s@.len(),
            r@ == s@.subrange(lo as int, i as int),
        decreases hi - i,
    {
        r.push(s[i]);
        proof {
            assert(r@ =~= s@.subrange(lo as int, i + 1));
        }
        i += 1;
    }
    r
}

/// `s` without leading and trailing whitespace (`str::trim`).
pub fn trim_chars(s: &Vec<char>) -> (r: Vec<char>)
    ensures
        r@ == trim(s@),
{
    let n = s.len();
    let mut i: usize = 0;
    proof {
        assert(s@.subrange(0, n as int) =~= s@);
    }
    while i < n && is_white_space(s[i])
        invariant
            i <= n,
            n == s@.len(),
            trim_start(s@) == trim_start(s@.subrange(i as int, n as int)),
        decreases n - i,
    {
        proof {
            assert(s@.subrange(i + 1, n as int) =~= s@.subrange(i as int, n as int).drop_first());
        }
        i += 1;
    }
    let ghost rest = s@.subrange(i as int, n as int);
    assert(trim_start(rest) == rest);
    let mut j: usize = n;
    proof {
        assert(rest.subrange(0, (n - i) as int) =~= rest);
    }
    while j > i && is_white_space(s[j - 1])
        invariant
            i <= j <= n,
            n == s@.len(),
            rest == s@.subrange(i as int, n as int),
            trim_end(rest) == trim_end(s@.subrange(i as int, j as int)),
        decreases j,
    {
        proof {
            assert(s@.subrange(i as int, j - 1) =~= s@.subrange(i as int, j as int).drop_last());
        }
        j -= 1;
    }
    copy_range(s, i, j)
}

/// `s` without the carriage returns at its end (`str::trim_end_matches('\r')`).
pub fn strip_trailing_cr_chars(s: &Vec<char>) -> (r: Vec<char>)
    ensures
        r@ == strip_trailing_cr(s@),
{
    let n = s.len();
    let mut j: usize = n;
    proof {
        assert(s@.subrange(0, n as int) =~= s@);
    }
    while j > 0 && s[j - 1] == '\r'
        invariant
            j <= n,
            n == s@.len(),
            strip_trailing_cr(s@) == strip_trailing_cr(s@.subrange(0, j as int)),
        decreases j,
    {
        proof {
            assert(s@.subrange(0, j - 1) =~= s@.subrange(0, j as int).drop_last());
        }
        j -= 1;
    }
    copy_range(s, 0, j)
}

/// Number of non-whitespace characters at the start of `s`.
pub open spec fn token_len(s: Seq<char>) -> nat
    decreases s.len(),
{
    if s.len() > 0 && !white_space(s[0]) {
        1 + token_len(s.drop_first())
    } else {
        0
    }
}

/// A token is never longer than the text, and text that starts with a
/// non-whitespace character starts with a token.
pub proof fn lemma_token_len_bound(s: Seq<char>)
    ensures
        token_len(s) <= s.len(),
        s.len() > 0 && !white_space(s[0]) ==> token_len(s) >= 1,
    decreases s.len(),
{
    if s.len() > 0 && !white_space(s[0]) {
        lemma_token_len_bound(s.drop_first());
    }
}

/// The maximal runs of non-whitespace characters of `s`, in order
/// (`str::split_whitespace`).
pub open spec fn split_whitespace(s: Seq<char>) -> Seq<Seq<char>>
    decreases s.len(),
{
    if s.len() == 0 {
        Seq::empty()
    } else if white_space(s[0]) {
        split_whitespace(s.drop_first())
    } else {
        proof {
            lemma_token_len_bound(s);
        }
        let n = token_len(s) as int;
        seq![s.take(n)] + split_whitespace(s.skip(n))
    }
}

proof fn lemma_token_len_concat(t: Seq<char>, rest: Seq<char>)
    requires
        forall|i: int| 0 <= i < t.len() ==> !white_space(#[trigger] t[i]),
        rest.len() == 0 || white_space(rest[0]),
    ensures
        token_len(t + rest) == t.len(),
    decreases t.len(),
{
    if t.len() == 0 {
        assert(t + rest =~= rest);
    } else {
        assert((t + rest).drop_first() =~= t.drop_first() + rest);
        lemma_token_len_concat(t.drop_first(), rest);
    }
}

/// A token followed by whitespace (or by nothing) is split off whole.
pub proof fn lemma_split_token(t: Seq<char>, rest: Seq<char>)
    requires
        t.len() > 0,
        forall|i: int| 0 <= i < t.len() ==> !white_space(#[trigger] t[i]),
        rest.len() == 0 || white_space(rest[0]),
    ensures
        split_whitespace(t + rest) == seq![t] + split_whitespace(rest),
{
    lemma_token_len_concat(t, rest);
    assert((t + rest)[0] == t[0]);
    assert((t + rest).take(t.len() as int) =~= t);
    assert((t + rest).skip(t.len() as int) =~= rest);
}

/// Whitespace in front of text does not change its tokens.
pub proof fn lemma_split_space(c: char, rest: Seq<char>)
    requires
        white_space(c),
    ensures
        split_whitespace(seq![c] + rest) == split_whitespace(rest),
{
    assert((seq![c] + rest).drop_first() =~= rest);
}

/// The views of a vector of character vectors.
pub open spec fn views(parts: Seq<Vec<char>>) -> Seq<Seq<char>> {
    parts.map_values(|p: Vec<char>| p@)
}

/// The whitespace-separated tokens of `s`.
pub fn split_whitespace_chars(s: &Vec<char>) -> (parts: Vec<Vec<char>>)
    ensures
        views(parts@) == split_whitespace(s@),
{
    let n = s.len();
    let mut parts: Vec<Vec<char>> = Vec::new();
    let mut i: usize = 0;
    proof {
        assert(s@.subrange(0, n as int) =~= s@);
        assert(views(parts@) + split_whitespace(s@) =~= split_whitespace(s@));
    }
    while i < n
        invariant
            i <= n,
            n == s@.len(),
            split_whitespace(s@) == views(parts@) + split_whitespace(s@.subrange(i as int, n as int)),
        decreases n - i,
    {
        let ghost rest = s@.subrange(i as int, n as int);
        if is_white_space(s[i]) {
            proof {
                assert(s@.subrange(i + 1, n as int) =~= rest.drop_first());
            }
            i += 1;
        } else {
            let mut j = i;
            while j < n && !is_white_space(s[j])
                invariant
                    i <= j <= n,
                    n == s@.len(),
                    rest == s@.subrange(i as int, n as int),
                    token_len(rest) == (j - i) + token_len(s@.subrange(j as int, n as int)),
                decreases n - j,
            {
                proof {
                    assert(s@.subrange(j + 1, n as int) =~= s@.subrange(j as int, n as int).drop_first());
                }
                j += 1;
            }
            let token = copy_range(s, i, j);
            proof {
                lemma_token_len_bound(rest);
                assert(token_len(rest) == j - i);
                assert(rest.take((j - i) as int) =~= token@);
                assert(rest.skip((j - i) as int) =~= s@.subrange(j as int, n as int));
            }
            let ghost before = parts@;
            parts.push(token);
            proof {
                assert(views(parts@) =~= views(before).push(token@));
                assert(views(before) + split_whitespace(rest) =~= views(parts@) + split_whitespace(
                    s@.subrange(j as int, n as int),
                ));
            }
            i = j;
        }
    }
    proof {
        assert(views(parts@) + Seq::<Seq<char>>::empty() =~= views(parts@));
    }
    parts
}

/// Whether `c` is an ASCII decimal digit.
pub open spec fn decimal_digit(c: char) -> bool {
    0x30 <= c as u32 <= 0x39
}

/// The value of a string of decimal digits.
pub open spec fn digits_value(s: Seq<char>) -> int
    decreases s.len(),
{
    if s.len() == 0 {
        0
    } else {
        digits_value(s.drop_last()) * 10 + (s.last() as u32 - 0x30)
    }
}

/// The digits of a number: `s` without one leading `+`.
pub open spec fn unsigned_digits(s: Seq<char>) -> Seq<char> {
    if s.len() > 0 && s[0] == '+' {
        s.drop_first()
    } else {
        s
    }
}

/// Whether every character of `d` is a decimal digit.
pub open spec fn all_decimal(d: Seq<char>) -> bool {
    forall|i: int| 0 <= i < d.len() ==> decimal_digit(#[trigger] d[i])
}

/// `s` read as a `usize` as `str::parse::<usize>` reads it: an optional `+`,
/// then at least one decimal digit, and a value that fits.
pub open spec fn parse_usize(s: Seq<char>) -> Option<usize> {
    let d = unsigned_digits(s);
    if d.len() > 0 && all_decimal(d) && digits_value(d) <= usize::MAX {
        Some(digits_value(d) as usize)
    } else {
        None
    }
}

proof fn lemma_digits_value_prefix(s: Seq<char>, k: int)
    requires
        0 <= k <= s.len(),
        all_decimal(s),
    ensures
        0 <= digits_value(s.take(k)) <= digits_value(s),
    decreases s.len(),
{
    if k == s.len() {
        assert(s.take(k) =~= s);
    } else {
        lemma_digits_value_prefix(s.drop_last(), k);
        assert(s.drop_last().take(k) =~= s.take(k));
    }
    if s.len() > 0 {
        lemma_digits_value_prefix(s.drop_last(), s.len() - 1);
        assert(s.drop_last().take(s.len() - 1) =~= s.drop_last());
    }
}

/// The decimal digit for `d` (0 to 9).
pub open spec fn digit_char(d: int) -> char {
    if d == 0 {
        '0'
    } else if d == 1 {
        '1'
    } else if d == 2 {
        '2'
    } else if d == 3 {
        '3'
    } else if d == 4 {
        '4'
    } else if d == 5 {
        '5'
    } else if d == 6 {
        '6'
    } else if d == 7 {
        '7'
    } else if d == 8 {
        '8'
    } else {
        '9'
    }
}

/// `n` written in decimal, without leading zeros.
pub open spec fn decimal_text(n: nat) -> Seq<char>
    decreases n,
{
    if n < 10 {
        seq![digit_char(n as int)]
    } else {
        decimal_text(n / 10) + seq![digit_char((n % 10) as int)]
    }
}

proof fn lemma_digit_char(d: int)
    requires
        0 <= d <= 9,
    ensures
        decimal_digit(digit_char(d)),
        digit_char(d) as u32 - 0x30 == d,
        !white_space(digit_char(d)),
        digit_char(d) != '+',
{
    assert('0' as u32 == 0x30);
    assert('1' as u32 == 0x31);
    assert('2' as u32 == 0x32);
    assert('3' as u32 == 0x33);
    assert('4' as u32 == 0x34);
    assert('5' as u32 == 0x35);
    assert('6' as u32 == 0x36);
    assert('7' as u32 == 0x37);
    assert('8' as u32 == 0x38);
    assert('9' as u32 == 0x39);
}

/// The decimal text of `n` is a non-empty string of digits whose value is `n`.
pub proof fn lemma_decimal_text(n: nat)
    ensures
        decimal_text(n).len() > 0,
        all_decimal(decimal_text(n)),
        digits_value(decimal_text(n)) == n,
        decimal_text(n)[0] != '+',
        forall|i: int| 0 <= i < decimal_text(n).len() ==> !white_space(#[trigger] decimal_text(n)[i]),
    decreases n,
{
    if n < 10 {
        lemma_digit_char(n as int);
        let t = decimal_text(n);
        assert(t.drop_last() =~= Seq::<char>::empty());
        assert(t.last() == digit_char(n as int));
        assert(digits_value(t.drop_last()) == 0);
        assert(digits_value(t) == digits_value(t.drop_last()) * 10 + (t.last() as u32 - 0x30));
    } else {
        let q = n / 10;
        let r = n % 10;
        lemma_decimal_text(q);
        lemma_digit_char(r as int);
        let t = decimal_text(n);
        assert(t.drop_last() =~= decimal_text(q));
        assert(t.last() == digit_char(r as int));
        assert(n == q * 10 + r);
        assert(digits_value(t) == digits_value(t.drop_last()) * 10 + (t.last() as u32 - 0x30));
    }
}

/// Decimal text reads back as the number it writes: for every `n` that fits
/// a `usize`, its decimal digits, with or without a leading `+`, parse to `n`.
pub proof fn lemma_parse_usize_decimal(n: usize)
    ensures
        parse_usize(decimal_text(n as nat)) == Some(n),
        parse_usize(seq!['+'] + decimal_text(n as nat)) == Some(n),
{
    lemma_decimal_text(n as nat);
    let t = decimal_text(n as nat);
    assert(unsigned_digits(t) == t);
    assert((seq!['+'] + t).drop_first() =~= t);
    assert(unsigned_digits(seq!['+'] + t) == t);
}

/// `s` read as a decimal `usize` (`str::parse::<usize>`).
pub fn parse_usize_chars(s: &Vec<char>) -> (r: Option<usize>)
    ensures
        r == parse_usize(s@),
{
    let n = s.len();
    let start: usize = if n > 0 && s[0] == '+' {
        1
    } else {
        0
    };
    let ghost d = s@.subrange(start as int, n as int);
    proof {
        if start == 1 {
            assert(d =~= s@.drop_first());
        } else {
            assert(d =~= s@);
        }
    }
    if start == n {
        return None;
    }
    let mut value: usize = 0;
    let mut i = start;
    proof {
        assert(d.take(0) =~= Seq::<char>::empty());
    }
    while i < n
        invariant
            start <= i <= n,
            n == s@.len(),
            d == s@.subrange(start as int, n as int),
            d == unsigned_digits(s@),
            forall|k: int| 0 <= k < i - start ==> decimal_digit(#[trigger] d[k]),
            value == digits_value(d.take(i - start)),
        decreases n - i,
    {
        let c = s[i];
        let code = c as u32;
        if !(0x30 <= code && code <= 0x39) {
            proof {
                assert(d[i - start] == c);
                assert(!decimal_digit(c));
                assert(!all_decimal(d));
            }
            return None;
        }
        let digit = (code - 0x30) as usize;
        proof {
            assert(d.take(i - start + 1).drop_last() =~= d.take(i - start));
        }
        match value.checked_mul(10) {
            Some(tens) => match tens.checked_add(digit) {
                Some(next) => {
                    value = next;
                },
                None => {
                    proof {
                        if all_decimal(d) {
                            lemma_digits_value_prefix(d, i - start + 1);
                        }
                    }
                    return None;
                },
            },
            None => {
                proof {
                    if all_decimal(d) {
                        lemma_digits_value_prefix(d, i - start + 1);
                    }
                }
                return None;
            },
        }
        i += 1;
    }
    proof {
        assert(d.take(n - start) =~= d);
    }
    Some(value)
}

/// Whether `s` begins with `prefix`.
pub open spec fn starts_with(s: Seq<char>, prefix: Seq<char>) -> bool {
    prefix.len() <= s.len() && s.take(prefix.len() as int) == prefix
}

/// Whether `s` begins with `prefix` (`str::starts_with`).
pub fn starts_with_chars(s: &Vec<char>, prefix: &[char]) -> (r: bool)
    ensures
        r == starts_with(s@, prefix@),
{
    let n = prefix.len();
    if n > s.len() {
        return false;
    }
    let mut i: usize = 0;
    while i < n
        invariant
            i <= n,
            n == prefix@.len(),
            n <= s@.len(),
            forall|k: int| 0 <= k < i ==> s@[k] == prefix@[k],
        decreases n - i,
    {
        if s[i] != prefix[i] {
            proof {
                assert(s@.take(n as int)[i as int] != prefix@[i as int]);
            }
            return false;
        }
        i += 1;
    }
    proof {
        assert(s@.take(n as int) =~= prefix@);
    }
    true
}

/// Whether `c` occurs in `s` (`str::contains` with a `char`).
pub fn contains_char(s: &Vec<char>, c: char) -> (r: bool)
    ensures
        r == s@.contains(c),
{
    let mut i: usize = 0;
    while i < s.len()
        invariant
            i <= s@.len(),
            forall|k: int| 0 <= k < i ==> s@[k] != c,
        decreases s@.len() - i,
    {
        if s[i] == c {
            proof {
                assert(s@[i as int] == c);
            }
            return true;
        }
        i += 1;
    }
    false
}

} // verus!
