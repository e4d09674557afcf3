//! Character-sequence helpers shared by the string-processing parts of the
//! library.

use vstd::prelude::*;

verus! {

/// The characters of `s`, in order.
pub fn chars_of(s: &str) -> (r: Vec<char>)
    ensures
        r@ == s@,
{
    let mut r: Vec<char> = Vec::new();
    for c in it: s.chars()
        invariant
            r@ == it.seq().take(it.index()),
    {
        r.push(c);
    }
    r
}

/// Builds a `String` from its characters (`String::from_iter` over `&char`).
#[verifier::external_body]
pub fn string_from_chars(v: &Vec<char>) -> (r: String)
    ensures
        r@ == v@,
{
    String::from_iter(v)
}

/// `c` is an ASCII letter or digit (`char::is_ascii_alphanumeric`).
pub open spec fn is_ascii_alnum(c: char) -> bool {
    ||| ('a' <= c && c <= 'z')
    ||| ('A' <= c && c <= 'Z')
    ||| ('0' <= c && c <= '9')
}

/// `char::to_ascii_uppercase`: ASCII lower-case letters map to upper case,
/// every other character is unchanged.
pub open spec fn upper_char(c: char) -> char {
    if 'a' <= c && c <= 'z' {
        ((c as u32) - 32) as char
    } else {
        c
    }
}

/// `char::to_ascii_lowercase`: ASCII upper-case letters map to lower case,
/// every other character is unchanged.
pub open spec fn lower_char(c: char) -> char {
    if 'A' <= c && c <= 'Z' {
        ((c as u32) + 32) as char
    } else {
        c
    }
}

pub open spec fn ascii_upper(s: Seq<char>) -> Seq<char> {
    s.map_values(|c: char| upper_char(c))
}

pub open spec fn ascii_lower(s: Seq<char>) -> Seq<char> {
    s.map_values(|c: char| lower_char(c))
}

pub fn is_ascii_alnum_exec(c: char) -> (r: bool)
    ensures
        r == is_ascii_alnum(c),
{
    ('a' <= c && c <= 'z') || ('A' <= c && c <= 'Z') || ('0' <= c && c <= '9')
}

pub fn upper_char_exec(c: char) -> (r: char)
    ensures
        r == upper_char(c),
{
    if 'a' <= c && c <= 'z' {
        let n: u32 = c as u32;
        char_from_ascii((n - 32) as u8)
    } else {
        c
    }
}

pub fn lower_char_exec(c: char) -> (r: char)
    ensures
        r == lower_char(c),
{
    if 'A' <= c && c <= 'Z' {
        let n: u32 = c as u32;
        char_from_ascii((n + 32) as u8)
    } else {
        c
    }
}

/// The character whose code is the ASCII byte `b`.
pub fn char_from_ascii(b: u8) -> (r: char)
    requires
        b < 128,
    ensures
        r == (b as u32) as char,
        r as u32 == b as u32,
{
    b as char
}


/// `char::is_whitespace`: the character has the Unicode `White_Space` property.
pub open spec fn is_white_space(c: char) -> bool {
    ||| ('\t' <= c && c <= '\r')
    ||| c == ' '
    ||| c == '\u{85}'
    ||| c == '\u{A0}'
    ||| c == '\u{1680}'
    ||| ('\u{2000}' <= c && c <= '\u{200A}')
    ||| c == '\u{2028}'
    ||| c == '\u{2029}'
    ||| c == '\u{202F}'
    ||| c == '\u{205F}'
    ||| c == '\u{3000}'
}

pub fn is_white_space_exec(c: char) -> (r: bool)
    ensures
        r == is_white_space(c),
{
    ('\t' <= c && c <= '\r') || c == ' ' || c == '\u{85}' || c == '\u{A0}' || c == '\u{1680}'
        || ('\u{2000}' <= c && c <= '\u{200A}') || c == '\u{2028}' || c == '\u{2029}'
        || c == '\u{202F}' || c == '\u{205F}' || c == '\u{3000}'
}

pub open spec fn trim_ws_start(s: Seq<char>) -> Seq<char>
    decreases s.len(),
{
    if s.len() > 0 && is_white_space(s[0]) {
        trim_ws_start(s.drop_first())
    } else {
        s
    }
}

pub open spec fn trim_ws_end(s: Seq<char>) -> Seq<char>
    decreases s.len(),
{
    if s.len() > 0 && is_white_space(s.last()) {
        trim_ws_end(s.drop_last())
    } else {
        s
    }
}

/// `str::trim`: leading and trailing white space removed.
pub open spec fn trim_ws(s: Seq<char>) -> Seq<char> {
    trim_ws_end(trim_ws_start(s))
}

proof fn lemma_trim_ws_start_skips(s: Seq<char>, a: int)
    requires
        0 <= a <= s.len(),
        forall|k: int| 0 <= k < a ==> is_white_space(#[trigger] s[k]),
    ensures
        trim_ws_start(s) == trim_ws_start(s.subrange(a, s.len() as int)),
    decreases a,
{
    if a > 0 {
        let t = s.drop_first();
        assert forall|k: int| 0 <= k < a - 1 implies is_white_space(#[trigger] t[k]) by {
            assert(t[k] == s[k + 1]);
        }
        lemma_trim_ws_start_skips(t, a - 1);
        assert(t.subrange(a - 1, t.len() as int) == s.subrange(a, s.len() as int));
    } else {
        assert(s.subrange(0, s.len() as int) == s);
    }
}

proof fn lemma_trim_ws_end_skips(s: Seq<char>, b: int)
    requires
        0 <= b <= s.len(),
        forall|k: int| b <= k < s.len() ==> is_white_space(#[trigger] s[k]),
    ensures
        trim_ws_end(s) == trim_ws_end(s.subrange(0, b)),
    decreases s.len() - b,
{
    if b < s.len() {
        let t = s.drop_last();
        assert forall|k: int| b <= k < t.len() implies is_white_space(#[trigger] t[k]) by {
            assert(t[k] == s[k]);
        }
        lemma_trim_ws_end_skips(t, b);
        assert(t.subrange(0, b) == s.subrange(0, b));
    } else {
        assert(s.subrange(0, b) == s);
    }
}

/// Text without white space at either end is its own trim.
pub proof fn lemma_trim_ws_of_trimmed(s: Seq<char>)
    requires
        s.len() > 0 ==> !is_white_space(s[0]) && !is_white_space(s.last()),
    ensures
        trim_ws(s) == s,
{
}

/// `str::trim` on a character sequence.
pub fn trim_white_space(v: &Vec<char>) -> (r: Vec<char>)
    ensures
        r@ == trim_ws(v@),
{
    let n = v.len();
    let mut a: usize = 0;
    while a < n && is_white_space_exec(v[a])
        invariant
            n == v@.len(),
            a <= n,
            forall|k: int| 0 <= k < a ==> is_white_space(#[trigger] v@[k]),
        decreases n - a,
    {
        a = a + 1;
    }
    let mut b: usize = n;
    while b > a && is_white_space_exec(v[b - 1])
        invariant
            n == v@.len(),
            a <= b <= n,
            forall|k: int| b <= k < n ==> is_white_space(#[trigger] v@[k]),
        decreases b - a,
    {
        b = b - 1;
    }
    let mut r: Vec<char> = Vec::new();
    let mut i: usize = a;
    while i < b
        invariant
            n == v@.len(),
            a <= i <= b <= n,
            r@ == v@.subrange(a as int, i as int),
        decreases b - i,
    {
        r.push(v[i]);
        assert(v@.subrange(a as int, i + 1) == v@.subrange(a as int, i as int).push(v@[i as int]));
        i = i + 1;
    }
    proof {
        let s = v@;
        lemma_trim_ws_start_skips(s, a as int);
        let u = s.subrange(a as int, n as int);
        assert(trim_ws_start(u) == u) by {
            if u.len() > 0 {
                assert(u[0] == s[a as int]);
            }
        }
        assert forall|k: int| b - a <= k < u.len() implies is_white_space(#[trigger] u[k]) by {
            assert(u[k] == s[k + a]);
        }
        lemma_trim_ws_end_skips(u, b - a);
        let w = u.subrange(0, b - a);
        assert(w == s.subrange(a as int, b as int));
        assert(trim_ws_end(w) == w) by {
            if w.len() > 0 {
                assert(w.last() == s[b - 1]);
            }
        }
    }
    r
}

pub open spec fn is_decimal_digit(c: char) -> bool {
    '0' <= c && c <= '9'
}

pub open spec fn all_decimal_digits(s: Seq<char>) -> bool {
    forall|i: int| 0 <= i < s.len() ==> is_decimal_digit(#[trigger] s[i])
}

/// The number that a string of decimal digits spells.
pub open spec fn digits_value(s: Seq<char>) -> nat
    decreases s.len(),
{
    if s.len() == 0 {
        0
    } else {
        (digits_value(s.drop_last()) * 10 + (s.last() as int - 48)) as nat
    }
}

/// `str::parse::<u16>`: an optional `+`, then one or more decimal digits
/// whose value fits in a `u16`.
pub open spec fn parse_u16_text(s: Seq<char>) -> Option<u16> {
    let digits = if s.len() > 0 && s[0] == '+' { s.drop_first() } else { s };
    if digits.len() > 0 && all_decimal_digits(digits) && digits_value(digits) <= u16::MAX {
        Some(digits_value(digits) as u16)
    } else {
        None
    }
}

/// Decimal digit character of `d` (`d < 10`).
pub open spec fn digit_char(d: int) -> char {
    (d + 48) as char
}

/// The decimal spelling of `n`, without leading zeros.
pub open spec fn decimal(n: nat) -> Seq<char>
    decreases n,
{
    if n < 10 {
        seq![digit_char(n as int)]
    } else {
        decimal(n / 10).push(digit_char((n % 10) as int))
    }
}

proof fn lemma_digits_value_prefix_bounded(s: Seq<char>, k: int)
    requires
        0 <= k <= s.len(),
        all_decimal_digits(s),
    ensures
        digits_value(s.take(k)) <= digits_value(s),
    decreases s.len() - k,
{
    if k < s.len() {
        let t = s.take(k + 1);
        assert(t.drop_last() == s.take(k));
        assert(is_decimal_digit(t.last()));
        lemma_digits_value_prefix_bounded(s, k + 1);
    } else {
        assert(s.take(k) == s);
    }
}

/// `str::parse::<u16>` on a character sequence.
pub fn parse_u16_chars(v: &Vec<char>) -> (r: Option<u16>)
    ensures
        r == parse_u16_text(v@),
{
    let n = v.len();
    let start: usize = if n > 0 && v[0] == '+' { 1 } else { 0 };
    let ghost digits = if v@.len() > 0 && v@[0] == '+' { v@.drop_first() } else { v@ };
    assert(digits == v@.subrange(start as int, n as int));
    if start >= n {
        return None;
    }
    let mut acc: u32 = 0;
    let mut i: usize = start;
    while i < n
        invariant
            n == v@.len(),
            start <= i <= n,
            digits == v@.subrange(start as int, n as int),
            digits == (if v@.len() > 0 && v@[0] == '+' { v@.drop_first() } else { v@ }),
            all_decimal_digits(digits.take(i - start)),
            acc == digits_value(digits.take(i - start)),
            acc <= 65535,
        decreases n - i,
    {
        let c = v[i];
        let ghost t = digits.take(i - start + 1);
        assert(t.drop_last() == digits.take(i - start));
        assert(t.last() == c);
        if !('0' <= c && c <= '9') {
            assert(!all_decimal_digits(digits)) by {
                assert(digits[i - start] == c);
                assert(!is_decimal_digit(digits[i - start]));
            }
            return None;
        }
        let d: u32 = (c as u32) - 48;
        let next: u32 = acc * 10 + d;
        assert(digits_value(t) == next);
        assert(all_decimal_digits(t)) by {
            assert forall|k: int| 0 <= k < t.len() implies is_decimal_digit(#[trigger] t[k]) by {
                if k < t.len() - 1 {
                    assert(t[k] == digits.take(i - start)[k]);
                }
            }
        }
        if next > 65535 {
            proof {
                if all_decimal_digits(digits) {
                    lemma_digits_value_prefix_bounded(digits, i - start + 1);
                }
            }
            return None;
        }
        acc = next;
        i = i + 1;
    }
    assert(digits.take(n - start) == digits);
    Some(acc as u16)
}

fn digit_char_exec(d: u16) -> (r: char)
    requires
        d < 10,
    ensures
        r == digit_char(d as int),
{
    char_from_ascii((d + 48) as u8)
}

/// Appends the decimal spelling of `n`.
pub fn push_decimal(out: &mut Vec<char>, n: u16)
    ensures
        final(out)@ == old(out)@ + decimal(n as nat),
    decreases n,
{
    if n < 10 {
        out.push(digit_char_exec(n));
    } else {
        push_decimal(out, n / 10);
        out.push(digit_char_exec(n % 10));
        assert(decimal(n as nat) == decimal((n / 10) as nat).push(digit_char((n % 10) as int)));
    }
}

/// The decimal spelling of every number reads back as that number.
pub proof fn lemma_decimal_reads_back(n: nat)
    ensures
        decimal(n).len() > 0,
        all_decimal_digits(decimal(n)),
        digits_value(decimal(n)) == n,
        !is_white_space(decimal(n)[0]),
        !is_white_space(decimal(n).last()),
        decimal(n)[0] != '+',
        is_decimal_digit(decimal(n).last()),
    decreases n,
{
    if n < 10 {
        let s = decimal(n);
        assert(digit_char(n as int) as int == n + 48);
        assert(s.drop_last() =~= Seq::<char>::empty());
        assert(digits_value(s.drop_last()) == 0);
    } else {
        lemma_decimal_reads_back(n / 10);
        let p = decimal(n / 10);
        let s = decimal(n);
        let d = (n % 10) as int;
        assert(digit_char(d) as int == d + 48);
        assert(n == (n / 10) * 10 + d);
        assert(s == p.push(digit_char(d)));
        assert(s.drop_last() == p);
        assert(s[0] == p[0]);
        assert forall|i: int| 0 <= i < s.len() implies is_decimal_digit(#[trigger] s[i]) by {
            if i < p.len() {
                assert(s[i] == p[i]);
            }
        }
    }
}

/// Every `u16` spelled in decimal parses back to itself.
pub proof fn lemma_parse_u16_of_decimal(n: u16)
    ensures
        parse_u16_text(decimal(n as nat)) == Some(n),
        trim_ws(decimal(n as nat)) == decimal(n as nat),
{
    lemma_decimal_reads_back(n as nat);
    lemma_trim_ws_of_trimmed(decimal(n as nat));
}


proof fn lemma_trim_ws_start_drops_leading_space(s: Seq<char>)
    ensures
        exists|a: int|
            0 <= a <= s.len() && trim_ws_start(s) == s.subrange(a, s.len() as int) && (forall|i: int|
                0 <= i < a ==> is_white_space(#[trigger] s[i])) && (a < s.len() ==> !is_white_space(s[a])),
    decreases s.len(),
{
    if s.len() > 0 && is_white_space(s[0]) {
        let t = s.drop_first();
        lemma_trim_ws_start_drops_leading_space(t);
        let a = choose|a: int|
            0 <= a <= t.len() && trim_ws_start(t) == t.subrange(a, t.len() as int) && (forall|i: int|
                0 <= i < a ==> is_white_space(#[trigger] t[i])) && (a < t.len() ==> !is_white_space(t[a]));
        assert(t.subrange(a, t.len() as int) == s.subrange(a + 1, s.len() as int));
        assert forall|i: int| 0 <= i < a + 1 implies is_white_space(#[trigger] s[i]) by {
            if i > 0 {
                assert(s[i] == t[i - 1]);
            }
        }
        if a + 1 < s.len() {
            assert(s[a + 1] == t[a]);
        }
    } else {
        assert(s.subrange(0, s.len() as int) == s);
    }
}

proof fn lemma_trim_ws_end_drops_trailing_space(s: Seq<char>)
    ensures
        exists|b: int|
            0 <= b <= s.len() && trim_ws_end(s) == s.subrange(0, b) && (forall|i: int|
                b <= i < s.len() ==> is_white_space(#[trigger] s[i])) && (b > 0 ==> !is_white_space(s[b - 1])),
    decreases s.len(),
{
    if s.len() > 0 && is_white_space(s.last()) {
        let t = s.drop_last();
        lemma_trim_ws_end_drops_trailing_space(t);
        let b = choose|b: int|
            0 <= b <= t.len() && trim_ws_end(t) == t.subrange(0, b) && (forall|i: int|
                b <= i < t.len() ==> is_white_space(#[trigger] t[i])) && (b > 0 ==> !is_white_space(t[b - 1]));
        assert(t.subrange(0, b) == s.subrange(0, b));
        assert forall|i: int| b <= i < s.len() implies is_white_space(#[trigger] s[i]) by {
            if i < s.len() - 1 {
                assert(s[i] == t[i]);
            }
        }
        if b > 0 {
            assert(s[b - 1] == t[b - 1]);
        }
    } else {
        assert(s.subrange(0, s.len() as int) == s);
    }
}

/// Trimming removes white space at both ends and nothing else: the result is
/// a contiguous part of the text, everything cut off before and after it is
/// white space, and the result neither starts nor ends with white space.
pub proof fn lemma_trim_ws_cuts_only_outer_space(s: Seq<char>)
    ensures
        exists|a: int, b: int|
            0 <= a <= b <= s.len() && #[trigger] trim_ws(s) == s.subrange(a, b) && (forall|i: int|
                0 <= i < a ==> is_white_space(#[trigger] s[i])) && (forall|i: int|
                b <= i < s.len() ==> is_white_space(#[trigger] s[i])),
        trim_ws(s).len() > 0 ==> !is_white_space(trim_ws(s)[0]) && !is_white_space(trim_ws(s).last()),
{
    lemma_trim_ws_start_drops_leading_space(s);
    let a = choose|a: int|
        0 <= a <= s.len() && trim_ws_start(s) == s.subrange(a, s.len() as int) && (forall|i: int|
            0 <= i < a ==> is_white_space(#[trigger] s[i])) && (a < s.len() ==> !is_white_space(s[a]));
    let u = trim_ws_start(s);
    lemma_trim_ws_end_drops_trailing_space(u);
    let b = choose|b: int|
        0 <= b <= u.len() && trim_ws_end(u) == u.subrange(0, b) && (forall|i: int|
            b <= i < u.len() ==> is_white_space(#[trigger] u[i])) && (b > 0 ==> !is_white_space(u[b - 1]));
    assert(u.subrange(0, b) == s.subrange(a, a + b));
    assert forall|i: int| a + b <= i < s.len() implies is_white_space(#[trigger] s[i]) by {
        assert(s[i] == u[i - a]);
    }
    if b > 0 {
        assert(trim_ws(s)[0] == s[a]);
        assert(trim_ws(s).last() == u[b - 1]);
    }
    assert(0 <= a <= a + b <= s.len() && trim_ws(s) == s.subrange(a, a + b));
}

/// A text parses as a `u16` exactly when, after an optional leading `+`, it
/// is one or more decimal digits spelling a number up to `u16::MAX`; the
/// value is then that number.
pub proof fn lemma_parse_u16_reads_decimal_digits(s: Seq<char>, n: u16)
    requires
        all_decimal_digits(s),
        s.len() > 0,
        digits_value(s) == n,
    ensures
        parse_u16_text(s) == Some(n),
        parse_u16_text(seq!['+'] + s) == Some(n),
        parse_u16_text(seq!['-'] + s) is None,
        parse_u16_text(Seq::<char>::empty()) is None,
{
    assert((seq!['+'] + s).drop_first() == s);
    assert(!is_decimal_digit((seq!['-'] + s)[0]));
    assert(s[0] != '+');
}

/// The digit characters of a number's decimal spelling are the digits of the
/// number, most significant first: the last is the remainder by ten.
pub proof fn lemma_decimal_last_digit(n: nat)
    ensures
        decimal(n).last() as int - 48 == n % 10,
        n >= 10 ==> decimal(n).drop_last() == decimal(n / 10),
        n < 10 ==> decimal(n).len() == 1,
{
    if n >= 10 {
        assert(decimal(n) == decimal(n / 10).push(digit_char((n % 10) as int)));
        assert(digit_char((n % 10) as int) as int == (n % 10) + 48);
    } else {
        assert(digit_char(n as int) as int == n + 48);
    }
}

} // verus!
