//! Turning a plugin id into a directory-name component that is safe on every
//! platform: a readable slug followed by a short hash of the full id.

use vstd::prelude::*;

use sha2::Digest;
use vstd::utf8::encode_utf8;

use crate::text::{ascii_upper, chars_of, char_from_ascii, is_ascii_alnum, is_ascii_alnum_exec, string_from_chars, upper_char, upper_char_exec};

verus! {

/// Characters a slug keeps as they are.
pub open spec fn is_slug_char(c: char) -> bool {
    is_ascii_alnum(c) || c == '-' || c == '_' || c == '.'
}

/// Characters trimmed from both ends of a slug.
pub open spec fn is_edge_char(c: char) -> bool {
    c == '-' || c == '_' || c == '.'
}

/// Every character outside the slug alphabet becomes `-`.
pub open spec fn sanitize(s: Seq<char>) -> Seq<char> {
    s.map_values(|c: char| if is_slug_char(c) { c } else { '-' })
}

/// Every run of `-` shrinks to a single `-`: a `-` right after a `-` is dropped.
pub open spec fn collapse_dashes(s: Seq<char>) -> Seq<char>
    decreases s.len(),
{
    if s.len() == 0 {
        s
    } else if s.len() >= 2 && s.last() == '-' && s[s.len() - 2] == '-' {
        collapse_dashes(s.drop_last())
    } else {
        collapse_dashes(s.drop_last()).push(s.last())
    }
}

pub open spec fn trim_edges_start(s: Seq<char>) -> Seq<char>
    decreases s.len(),
{
    if s.len() > 0 && is_edge_char(s[0]) {
        trim_edges_start(s.drop_first())
    } else {
        s
    }
}

pub open spec fn trim_edges_end(s: Seq<char>) -> Seq<char>
    decreases s.len(),
{
    if s.len() > 0 && is_edge_char(s.last()) {
        trim_edges_end(s.drop_last())
    } else {
        s
    }
}

/// Leading and trailing `-`, `_` and `.` removed.
pub open spec fn trim_edges(s: Seq<char>) -> Seq<char> {
    trim_edges_end(trim_edges_start(s))
}

/// The slug used when nothing readable is left of the id.
pub open spec fn fallback_slug() -> Seq<char> {
    seq!['p', 'l', 'u', 'g', 'i', 'n']
}

/// Longest slug kept, in characters.
pub open spec fn max_slug_len() -> nat {
    80
}

/// The part of a path component before its first `.` (all of it when there is none).
pub open spec fn stem(s: Seq<char>) -> Seq<char>
    decreases s.len(),
{
    if s.len() == 0 {
        s
    } else if s[0] == '.' {
        Seq::empty()
    } else {
        seq![s[0]] + stem(s.drop_first())
    }
}

/// Device names that Windows reserves, whatever the extension (upper case).
pub open spec fn is_reserved_device_name(u: Seq<char>) -> bool {
    ||| u == seq!['C', 'O', 'N']
    ||| u == seq!['P', 'R', 'N']
    ||| u == seq!['A', 'U', 'X']
    ||| u == seq!['N', 'U', 'L']
    ||| (u.len() == 4 && u.take(3) == seq!['C', 'O', 'M'] && '1' <= u[3] && u[3] <= '9')
    ||| (u.len() == 4 && u.take(3) == seq!['L', 'P', 'T'] && '1' <= u[3] && u[3] <= '9')
}

/// The stem of `s`, upper-cased, is a reserved Windows device name.
pub open spec fn has_reserved_stem(s: Seq<char>) -> bool {
    is_reserved_device_name(ascii_upper(stem(s)))
}

/// Every `.` becomes `-`.
pub open spec fn dots_to_dashes(s: Seq<char>) -> Seq<char> {
    s.map_values(|c: char| if c == '.' { '-' } else { c })
}

/// The readable part of a managed path component.
pub open spec fn readable_slug(value: Seq<char>) -> Seq<char> {
    let trimmed = trim_edges(collapse_dashes(sanitize(value)));
    let bounded = if trimmed.len() == 0 {
        fallback_slug()
    } else {
        trimmed.take(if trimmed.len() < max_slug_len() { trimmed.len() as int } else { max_slug_len() as int })
    };
    if has_reserved_stem(bounded) {
        dots_to_dashes(bounded)
    } else {
        bounded
    }
}

fn sanitize_chars(v: &Vec<char>) -> (r: Vec<char>)
    ensures
        r@ == sanitize(v@),
{
    let mut r: Vec<char> = Vec::new();
    let n = v.len();
    for i in 0..n
        invariant
            n == v@.len(),
            r@ == sanitize(v@.take(i as int)),
    {
        let c = v[i];
        let keep = is_ascii_alnum_exec(c) || c == '-' || c == '_' || c == '.';
        r.push(if keep { c } else { '-' });
        assert(v@.take(i + 1) == v@.take(i as int).push(c));
    }
    assert(v@.take(n as int) == v@);
    r
}

fn collapse_dash_runs(v: &Vec<char>) -> (r: Vec<char>)
    ensures
        r@ == collapse_dashes(v@),
{
    let mut r: Vec<char> = Vec::new();
    let n = v.len();
    for i in 0..n
        invariant
            n == v@.len(),
            r@ == collapse_dashes(v@.take(i as int)),
    {
        let c = v[i];
        let ghost t = v@.take(i + 1);
        assert(t.drop_last() == v@.take(i as int));
        assert(t.last() == c);
        if c == '-' && i > 0 && v[i - 1] == '-' {
            assert(t[t.len() - 2] == v@[i - 1]);
        } else {
            r.push(c);
            if i > 0 {
                assert(t[t.len() - 2] == v@[i - 1]);
            }
        }
    }
    assert(v@.take(n as int) == v@);
    r
}

proof fn lemma_trim_start_skips(s: Seq<char>, a: int)
    requires
        0 <= a <= s.len(),
        forall|k: int| 0 <= k < a ==> is_edge_char(#[trigger] s[k]),
    ensures
        trim_edges_start(s) == trim_edges_start(s.subrange(a, s.len() as int)),
    decreases a,
{
    if a > 0 {
        assert(is_edge_char(s[0]));
        let t = s.drop_first();
        assert forall|k: int| 0 <= k < a - 1 implies is_edge_char(#[trigger] t[k]) by {
            assert(t[k] == s[k + 1]);
        }
        lemma_trim_start_skips(t, a - 1);
        assert(t.subrange(a - 1, t.len() as int) == s.subrange(a, s.len() as int));
    } else {
        assert(s.subrange(0, s.len() as int) == s);
    }
}

proof fn lemma_trim_end_skips(s: Seq<char>, b: int)
    requires
        0 <= b <= s.len(),
        forall|k: int| b <= k < s.len() ==> is_edge_char(#[trigger] s[k]),
    ensures
        trim_edges_end(s) == trim_edges_end(s.subrange(0, b)),
    decreases s.len() - b,
{
    if b < s.len() {
        assert(is_edge_char(s.last()));
        let t = s.drop_last();
        assert forall|k: int| b <= k < t.len() implies is_edge_char(#[trigger] t[k]) by {
            assert(t[k] == s[k]);
        }
        lemma_trim_end_skips(t, b);
        assert(t.subrange(0, b) == s.subrange(0, b));
    } else {
        assert(s.subrange(0, b) == s);
    }
}

fn trim_edge_chars(v: &Vec<char>) -> (r: Vec<char>)
    ensures
        r@ == trim_edges(v@),
{
    let n = v.len();
    let mut a: usize = 0;
    while a < n && (v[a] == '-' || v[a] == '_' || v[a] == '.')
        invariant
            n == v@.len(),
            a <= n,
            forall|k: int| 0 <= k < a ==> is_edge_char(#[trigger] v@[k]),
        decreases n - a,
    {
        a = a + 1;
    }
    let mut b: usize = n;
    while b > a && (v[b - 1] == '-' || v[b - 1] == '_' || v[b - 1] == '.')
        invariant
            n == v@.len(),
            a <= b <= n,
            forall|k: int| b <= k < n ==> is_edge_char(#[trigger] v@[k]),
        decreases b - a,
    {
        b = b - 1;
    }
    let mut r: Vec<char> = Vec::new();
    let mut i: usize = a;
    while i < b
        invariant
            n == v@.len(),
            a <= i <= b <= n,
            r@ == v@.subrange(a as int, i as int),
        decreases b - i,
    {
        r.push(v[i]);
        assert(v@.subrange(a as int, i + 1) == v@.subrange(a as int, i as int).push(v@[i as int]));
        i = i + 1;
    }
    proof {
        let s = v@;
        lemma_trim_start_skips(s, a as int);
        let u = s.subrange(a as int, n as int);
        assert(trim_edges_start(u) == u) by {
            if u.len() > 0 {
                assert(u[0] == s[a as int]);
            }
        }
        assert forall|k: int| b - a <= k < u.len() implies is_edge_char(#[trigger] u[k]) by {
            assert(u[k] == s[k + a]);
        }
        lemma_trim_end_skips(u, b - a);
        let w = u.subrange(0, b - a);
        assert(w == s.subrange(a as int, b as int));
        assert(trim_edges_end(w) == w) by {
            if w.len() > 0 {
                assert(w.last() == s[b - 1]);
            }
        }
    }
    r
}

fn stem_of(v: &Vec<char>) -> (r: Vec<char>)
    ensures
        r@ == stem(v@),
{
    let n = v.len();
    let mut i: usize = 0;
    while i < n && v[i] != '.'
        invariant
            n == v@.len(),
            i <= n,
            forall|k: int| 0 <= k < i ==> v@[k] != '.',
        decreases n - i,
    {
        i = i + 1;
    }
    let mut r: Vec<char> = Vec::new();
    let mut j: usize = 0;
    while j < i
        invariant
            n == v@.len(),
            j <= i <= n,
            r@ == v@.take(j as int),
        decreases i - j,
    {
        r.push(v[j]);
        assert(v@.take(j + 1) == v@.take(j as int).push(v@[j as int]));
        j = j + 1;
    }
    proof {
        lemma_stem_prefix(v@, i as int);
    }
    r
}

proof fn lemma_stem_prefix(s: Seq<char>, i: int)
    requires
        0 <= i <= s.len(),
        forall|k: int| 0 <= k < i ==> s[k] != '.',
        i == s.len() || s[i] == '.',
    ensures
        stem(s) == s.take(i),
    decreases s.len(),
{
    if s.len() == 0 {
    } else if s[0] == '.' {
        assert(i == 0);
    } else {
        let t = s.drop_first();
        assert forall|k: int| 0 <= k < i - 1 implies t[k] != '.' by {
            assert(t[k] == s[k + 1]);
        }
        if i < s.len() {
            assert(t[i - 1] == s[i]);
        }
        lemma_stem_prefix(t, i - 1);
        assert(seq![s[0]] + t.take(i - 1) == s.take(i));
    }
}

fn is_reserved_device_name_exec(u: &Vec<char>) -> (r: bool)
    ensures
        r == is_reserved_device_name(u@),
{
    let n = u.len();
    if n == 3 {
        let (a, b, c) = (u[0], u[1], u[2]);
        let r = (a == 'C' && b == 'O' && c == 'N') || (a == 'P' && b == 'R' && c == 'N')
            || (a == 'A' && b == 'U' && c == 'X') || (a == 'N' && b == 'U' && c == 'L');
        proof {
            assert(u@ == seq![a, b, c]);
        }
        r
    } else if n == 4 {
        let (a, b, c, d) = (u[0], u[1], u[2], u[3]);
        let digit = '1' <= d && d <= '9';
        let r = digit && ((a == 'C' && b == 'O' && c == 'M') || (a == 'L' && b == 'P' && c == 'T'));
        proof {
            assert(u@.take(3) == seq![a, b, c]);
        }
        r
    } else {
        false
    }
}

fn upper_chars(v: &Vec<char>) -> (r: Vec<char>)
    ensures
        r@ == ascii_upper(v@),
{
    let mut r: Vec<char> = Vec::new();
    let n = v.len();
    for i in 0..n
        invariant
            n == v@.len(),
            r@ == ascii_upper(v@.take(i as int)),
    {
        r.push(upper_char_exec(v[i]));
        assert(v@.take(i + 1) == v@.take(i as int).push(v@[i as int]));
    }
    assert(v@.take(n as int) == v@);
    r
}

fn has_reserved_stem_chars(v: &Vec<char>) -> (r: bool)
    ensures
        r == has_reserved_stem(v@),
{
    let s = stem_of(v);
    let u = upper_chars(&s);
    is_reserved_device_name_exec(&u)
}

/// Whether the part of `value` before its first `.`, compared without regard
/// to ASCII case, is a device name that Windows reserves (`CON`, `PRN`, `AUX`,
/// `NUL`, `COM1`..`COM9`, `LPT1`..`LPT9`).
pub fn has_windows_reserved_stem_for_path_component(value: &str) -> (r: bool)
    ensures
        r == has_reserved_stem(value@),
{
    let v = chars_of(value);
    has_reserved_stem_chars(&v)
}


/// Lower-case hexadecimal digit of `n` (`n < 16`).
pub open spec fn hex_digit(n: int) -> char {
    if n < 10 {
        (n + 48) as char
    } else {
        (n + 87) as char
    }
}

/// Two lower-case hexadecimal digits per byte, most significant first
/// (what `{:02x}` writes).
pub open spec fn hex_lower(bytes: Seq<u8>) -> Seq<char>
    decreases bytes.len(),
{
    if bytes.len() == 0 {
        Seq::empty()
    } else {
        hex_lower(bytes.drop_last()) + seq![
            hex_digit(bytes.last() as int / 16),
            hex_digit(bytes.last() as int % 16),
        ]
    }
}

/// What SHA-256 gives for `data` (32 bytes).
pub uninterp spec fn sha256_of(data: Seq<u8>) -> Seq<u8>;

/// Number of digest bytes that go into a managed path component.
pub open spec fn id_hash_bytes() -> int {
    6
}

/// The hexadecimal tag that tells apart ids with the same slug: the first six
/// bytes of the SHA-256 digest of the id's UTF-8 bytes.
pub open spec fn id_hash_hex(value: Seq<char>) -> Seq<char> {
    hex_lower(sha256_of(encode_utf8(value)).take(id_hash_bytes()))
}

/// The directory-name component that holds a managed copy of the plugin `value`.
pub open spec fn managed_path_component(value: Seq<char>) -> Seq<char> {
    readable_slug(value) + seq!['-'] + id_hash_hex(value)
}

/// `sha2::Sha256::digest` over `data`. Claimed: the result is the function
/// `sha256_of` of the input bytes, and it is 32 bytes long (`Sha256`'s output
/// size).
#[verifier::external_body]
fn sha256_digest(data: &[u8]) -> (r: Vec<u8>)
    ensures
        r@ == sha256_of(data@),
        r@.len() == 32,
{
    sha2::Sha256::digest(data).to_vec()
}

fn hex_digit_exec(n: u8) -> (r: char)
    requires
        n < 16,
    ensures
        r == hex_digit(n as int),
{
    if n < 10 {
        char_from_ascii(n + 48)
    } else {
        char_from_ascii(n + 87)
    }
}

fn take_chars(v: &Vec<char>, k: usize) -> (r: Vec<char>)
    requires
        k <= v@.len(),
    ensures
        r@ == v@.take(k as int),
{
    let mut r: Vec<char> = Vec::new();
    let mut i: usize = 0;
    while i < k
        invariant
            k <= v@.len(),
            i <= k,
            r@ == v@.take(i as int),
        decreases k - i,
    {
        r.push(v[i]);
        assert(v@.take(i + 1) == v@.take(i as int).push(v@[i as int]));
        i = i + 1;
    }
    r
}

fn dots_to_dashes_chars(v: &Vec<char>) -> (r: Vec<char>)
    ensures
        r@ == dots_to_dashes(v@),
{
    let mut r: Vec<char> = Vec::new();
    let n = v.len();
    for i in 0..n
        invariant
            n == v@.len(),
            r@ == dots_to_dashes(v@.take(i as int)),
    {
        let c = v[i];
        r.push(if c == '.' { '-' } else { c });
        assert(v@.take(i + 1) == v@.take(i as int).push(c));
    }
    assert(v@.take(n as int) == v@);
    r
}

fn readable_slug_chars(value: &str) -> (r: Vec<char>)
    ensures
        r@ == readable_slug(value@),
{
    let v = chars_of(value);
    let sanitized = sanitize_chars(&v);
    let collapsed = collapse_dash_runs(&sanitized);
    let trimmed = trim_edge_chars(&collapsed);
    let bounded = if trimmed.len() == 0 {
        let mut p: Vec<char> = Vec::new();
        p.push('p');
        p.push('l');
        p.push('u');
        p.push('g');
        p.push('i');
        p.push('n');
        assert(p@ == fallback_slug());
        p
    } else if trimmed.len() < 80 {
        take_chars(&trimmed, trimmed.len())
    } else {
        take_chars(&trimmed, 80)
    };
    if has_reserved_stem_chars(&bounded) {
        dots_to_dashes_chars(&bounded)
    } else {
        bounded
    }
}

/// A readable, filesystem-safe rendering of a plugin id: characters other
/// than ASCII letters, digits, `-`, `_` and `.` become `-`, runs of `-` shrink
/// to one, `-`, `_` and `.` are trimmed from both ends, an empty result becomes
/// `plugin`, at most 80 characters are kept, and when what is left would
/// start with a reserved Windows device name its dots become dashes.
pub fn readable_plugin_path_slug(value: &str) -> (r: String)
    ensures
        r@ == readable_slug(value@),
{
    let v = readable_slug_chars(value);
    string_from_chars(&v)
}

fn digest_prefix_hex_chars(digest: &[u8]) -> (r: Vec<char>)
    requires
        digest@.len() >= id_hash_bytes(),
    ensures
        r@ == hex_lower(digest@.take(id_hash_bytes())),
        r@.len() == 12,
{
    let ghost bytes = digest@.take(id_hash_bytes());
    let mut r: Vec<char> = Vec::new();
    let mut i: usize = 0;
    while i < 6
        invariant
            digest@.len() >= 6,
            bytes == digest@.take(id_hash_bytes()),
            i <= 6,
            r@ == hex_lower(bytes.take(i as int)),
            r@.len() == 2 * i,
        decreases 6 - i,
    {
        let b = digest[i];
        assert(bytes.take(i + 1).drop_last() == bytes.take(i as int));
        assert(bytes.take(i + 1).last() == b);
        r.push(hex_digit_exec(b / 16));
        r.push(hex_digit_exec(b % 16));
        i = i + 1;
    }
    assert(bytes.take(6) == bytes);
    r
}

/// The short hash tag of a digest: its first six bytes as twelve lower-case
/// hexadecimal digits.
pub fn digest_prefix_hex(digest: &[u8]) -> (r: String)
    requires
        digest@.len() >= id_hash_bytes(),
    ensures
        r@ == hex_lower(digest@.take(id_hash_bytes())),
        r@.len() == 12,
{
    let v = digest_prefix_hex_chars(digest);
    string_from_chars(&v)
}

fn id_hash_hex_chars(value: &str) -> (r: Vec<char>)
    ensures
        r@ == id_hash_hex(value@),
        r@.len() == 12,
{
    let digest = sha256_digest(value.as_bytes());
    digest_prefix_hex_chars(digest.as_slice())
}

/// The first six bytes of the SHA-256 digest of `value`'s UTF-8 bytes, as
/// twelve lower-case hexadecimal digits.
pub fn short_plugin_id_hash_for_path_component(value: &str) -> (r: String)
    ensures
        r@ == id_hash_hex(value@),
        r@.len() == 12,
{
    let v = id_hash_hex_chars(value);
    string_from_chars(&v)
}

/// The directory name under which a managed plugin is stored: its readable
/// slug, a `-`, and the short hash of the full id.
pub fn plugin_managed_path_component(value: &str) -> (r: String)
    ensures
        r@ == managed_path_component(value@),
        r@.len() == readable_slug(value@).len() + 13,
        all_slug_chars(r@),
        r@.len() >= 14,
        is_ascii_alnum(r@.last()),
        !has_reserved_stem(r@),
{
    let mut v = readable_slug_chars(value);
    let h = id_hash_hex_chars(value);
    v.push('-');
    let ghost front = v@;
    let mut i: usize = 0;
    while i < 12
        invariant
            h@.len() == 12,
            i <= 12,
            v@ == front + h@.take(i as int),
        decreases 12 - i,
    {
        v.push(h[i]);
        assert(h@.take(i + 1) == h@.take(i as int).push(h@[i as int]));
        i = i + 1;
    }
    assert(h@.take(12) == h@);
    proof {
        lemma_managed_path_component_is_portable(value@);
    }
    string_from_chars(&v)
}


/// Every character of `s` is an ASCII letter or digit, `-`, `_` or `.`.
pub open spec fn all_slug_chars(s: Seq<char>) -> bool {
    forall|i: int| 0 <= i < s.len() ==> is_slug_char(#[trigger] s[i])
}

proof fn lemma_collapse_keeps_alphabet(s: Seq<char>)
    requires
        all_slug_chars(s),
    ensures
        all_slug_chars(collapse_dashes(s)),
        collapse_dashes(s).len() <= s.len(),
    decreases s.len(),
{
    if s.len() > 0 {
        let t = s.drop_last();
        assert(all_slug_chars(t)) by {
            assert forall|i: int| 0 <= i < t.len() implies is_slug_char(#[trigger] t[i]) by {
                assert(t[i] == s[i]);
            }
        }
        lemma_collapse_keeps_alphabet(t);
        assert(is_slug_char(s[s.len() - 1]));
    }
}

proof fn lemma_trim_keeps_alphabet(s: Seq<char>)
    requires
        all_slug_chars(s),
    ensures
        all_slug_chars(trim_edges_start(s)),
        all_slug_chars(trim_edges_end(s)),
        trim_edges_start(s).len() <= s.len(),
        trim_edges_end(s).len() <= s.len(),
    decreases s.len(),
{
    if s.len() > 0 {
        let t = s.drop_first();
        assert(all_slug_chars(t)) by {
            assert forall|i: int| 0 <= i < t.len() implies is_slug_char(#[trigger] t[i]) by {
                assert(t[i] == s[i + 1]);
            }
        }
        let u = s.drop_last();
        assert(all_slug_chars(u)) by {
            assert forall|i: int| 0 <= i < u.len() implies is_slug_char(#[trigger] u[i]) by {
                assert(u[i] == s[i]);
            }
        }
        lemma_trim_keeps_alphabet(t);
        lemma_trim_keeps_alphabet(u);
    }
}

proof fn lemma_hex_lower_shape(bytes: Seq<u8>)
    ensures
        hex_lower(bytes).len() == 2 * bytes.len(),
        forall|i: int| 0 <= i < hex_lower(bytes).len() ==> is_ascii_alnum(#[trigger] hex_lower(bytes)[i]),
    decreases bytes.len(),
{
    if bytes.len() > 0 {
        let t = bytes.drop_last();
        lemma_hex_lower_shape(t);
        let b = bytes.last() as int;
        let d = seq![hex_digit(b / 16), hex_digit(b % 16)];
        assert(is_ascii_alnum(d[0]) && is_ascii_alnum(d[1]));
        let h = hex_lower(bytes);
        assert(h == hex_lower(t) + d);
        assert forall|i: int| 0 <= i < h.len() implies is_ascii_alnum(#[trigger] h[i]) by {
            if i < hex_lower(t).len() {
                assert(h[i] == hex_lower(t)[i]);
            } else {
                assert(h[i] == d[i - hex_lower(t).len()]);
            }
        }
    }
}

proof fn lemma_stem_without_dot(s: Seq<char>)
    requires
        forall|i: int| 0 <= i < s.len() ==> s[i] != '.',
    ensures
        stem(s) == s,
    decreases s.len(),
{
    if s.len() > 0 {
        let t = s.drop_first();
        assert forall|i: int| 0 <= i < t.len() implies t[i] != '.' by {
            assert(t[i] == s[i + 1]);
        }
        lemma_stem_without_dot(t);
        assert(seq![s[0]] + t == s);
    }
}

proof fn lemma_stem_of_append(s: Seq<char>, t: Seq<char>, k: int)
    requires
        0 <= k < s.len(),
        s[k] == '.',
    ensures
        stem(s + t) == stem(s),
    decreases s.len(),
{
    if s[0] != '.' {
        let st = s + t;
        assert(st.drop_first() == s.drop_first() + t);
        assert(s.drop_first()[k - 1] == s[k]);
        lemma_stem_of_append(s.drop_first(), t, k - 1);
    } else {
        assert((s + t)[0] == '.');
    }
}

/// The readable slug is never empty, holds at most 80 characters, and uses
/// only ASCII letters, digits, `-`, `_` and `.`.
pub proof fn lemma_readable_slug_shape(value: Seq<char>)
    ensures
        0 < readable_slug(value).len() <= max_slug_len(),
        all_slug_chars(readable_slug(value)),
{
    let sanitized = sanitize(value);
    assert(all_slug_chars(sanitized));
    lemma_collapse_keeps_alphabet(sanitized);
    let collapsed = collapse_dashes(sanitized);
    lemma_trim_keeps_alphabet(collapsed);
    lemma_trim_keeps_alphabet(trim_edges_start(collapsed));
    let trimmed = trim_edges(collapsed);
    let bounded = if trimmed.len() == 0 {
        fallback_slug()
    } else {
        trimmed.take(if trimmed.len() < max_slug_len() { trimmed.len() as int } else { max_slug_len() as int })
    };
    assert(all_slug_chars(bounded)) by {
        if trimmed.len() == 0 {
            assert(is_ascii_alnum('p') && is_ascii_alnum('l') && is_ascii_alnum('u'));
            assert(is_ascii_alnum('g') && is_ascii_alnum('i') && is_ascii_alnum('n'));
        }
    }
    if has_reserved_stem(bounded) {
        let d = dots_to_dashes(bounded);
        assert(all_slug_chars(d));
    }
}

/// A managed path component is safe to use as a directory name everywhere:
/// it uses only ASCII letters, digits, `-`, `_` and `.`; it is at least
/// fourteen characters long (so never `.` or `..`); it ends with a
/// hexadecimal digit (never with `.`); and the part before its first `.` is
/// never a reserved Windows device name.
pub proof fn lemma_managed_path_component_is_portable(value: Seq<char>)
    requires
        id_hash_hex(value).len() == 12,
    ensures
        all_slug_chars(managed_path_component(value)),
        managed_path_component(value).len() == readable_slug(value).len() + 13,
        managed_path_component(value).len() >= 14,
        is_ascii_alnum(managed_path_component(value).last()),
        !has_reserved_stem(managed_path_component(value)),
{
    let slug = readable_slug(value);
    let hash = id_hash_hex(value);
    let comp = managed_path_component(value);
    lemma_readable_slug_shape(value);
    lemma_hex_lower_shape(sha256_of(encode_utf8(value)).take(id_hash_bytes()));
    assert(hash.len() == 12);
    let front = slug + seq!['-'];
    assert(comp == front + hash);
    assert forall|i: int| 0 <= i < comp.len() implies is_slug_char(#[trigger] comp[i]) by {
        if i < slug.len() {
            assert(comp[i] == slug[i]);
        } else if i == slug.len() {
            assert(comp[i] == '-');
        } else {
            assert(comp[i] == hash[i - slug.len() - 1]);
        }
    }
    assert(comp.last() == hash[11]);
    // The stem is not reserved.
    if exists|k: int| 0 <= k < slug.len() && slug[k] == '.' {
        let k = choose|k: int| 0 <= k < slug.len() && slug[k] == '.';
        let trimmed = trim_edges(collapse_dashes(sanitize(value)));
        let bounded = if trimmed.len() == 0 {
            fallback_slug()
        } else {
            trimmed.take(if trimmed.len() < max_slug_len() { trimmed.len() as int } else { max_slug_len() as int })
        };
        if has_reserved_stem(bounded) {
            assert(slug == dots_to_dashes(bounded));
            assert(slug[k] == '-');
        }
        assert(slug == bounded);
        assert((slug + (seq!['-'] + hash)) == comp);
        lemma_stem_of_append(slug, seq!['-'] + hash, k);
    } else {
        assert forall|i: int| 0 <= i < comp.len() implies comp[i] != '.' by {
            if i < slug.len() {
                assert(comp[i] == slug[i]);
            } else if i > slug.len() {
                assert(comp[i] == hash[i - slug.len() - 1]);
                assert(is_ascii_alnum(hash[i - slug.len() - 1]));
            }
        }
        lemma_stem_without_dot(comp);
        assert(ascii_upper(comp).len() == comp.len());
    }
}

/// The component pins down both of its parts: ids that get the same managed
/// path component have the same readable slug and the same short hash. Two
/// ids whose hashes differ (such as `a:b` and `a_b`, whose slugs agree) thus
/// never share a directory.
pub proof fn lemma_managed_path_component_determines_parts(a: Seq<char>, b: Seq<char>)
    requires
        id_hash_hex(a).len() == 12,
        id_hash_hex(b).len() == 12,
        managed_path_component(a) == managed_path_component(b),
    ensures
        readable_slug(a) == readable_slug(b),
        id_hash_hex(a) == id_hash_hex(b),
{
    lemma_managed_path_component_is_portable(a);
    lemma_managed_path_component_is_portable(b);
    lemma_hex_lower_shape(sha256_of(encode_utf8(a)).take(id_hash_bytes()));
    lemma_hex_lower_shape(sha256_of(encode_utf8(b)).take(id_hash_bytes()));
    let ca = managed_path_component(a);
    let sa = readable_slug(a);
    let sb = readable_slug(b);
    assert(sa.len() == sb.len());
    assert(ca.subrange(0, sa.len() as int) == sa);
    assert(managed_path_component(b).subrange(0, sb.len() as int) == sb);
    assert(ca.subrange(sa.len() + 1int, ca.len() as int) == id_hash_hex(a));
    assert(managed_path_component(b).subrange(sb.len() + 1int, ca.len() as int) == id_hash_hex(b));
}


/// An id that already reads as a slug: nonempty, at most 80 characters of
/// the slug alphabet, no `--`, no `-`, `_` or `.` at either end, and no
/// reserved Windows device name before its first `.`.
pub open spec fn is_clean_slug(s: Seq<char>) -> bool {
    &&& 0 < s.len() <= max_slug_len()
    &&& all_slug_chars(s)
    &&& forall|i: int| 0 <= i < s.len() - 1 ==> !(s[i] == '-' && #[trigger] s[i + 1] == '-')
    &&& !is_edge_char(s[0])
    &&& !is_edge_char(s.last())
    &&& !has_reserved_stem(s)
}

proof fn lemma_collapse_without_double_dash(s: Seq<char>)
    requires
        forall|i: int| 0 <= i < s.len() - 1 ==> !(s[i] == '-' && #[trigger] s[i + 1] == '-'),
    ensures
        collapse_dashes(s) == s,
    decreases s.len(),
{
    if s.len() > 0 {
        let t = s.drop_last();
        assert forall|i: int| 0 <= i < t.len() - 1 implies !(t[i] == '-' && #[trigger] t[i + 1] == '-') by {
            assert(t[i] == s[i] && t[i + 1] == s[i + 1]);
        }
        lemma_collapse_without_double_dash(t);
        if s.len() >= 2 {
            assert(!(s[s.len() - 2] == '-' && s[s.len() - 2 + 1] == '-'));
        }
        assert(t.push(s.last()) == s);
    }
}

/// An id that already reads as a slug is kept as it is: its slug is the id
/// itself, and its managed path component starts with the id and a `-`.
pub proof fn lemma_clean_id_keeps_its_slug(value: Seq<char>)
    requires
        is_clean_slug(value),
    ensures
        readable_slug(value) == value,
        managed_path_component(value).subrange(0, value.len() as int) == value,
        managed_path_component(value)[value.len() as int] == '-',
{
    assert(sanitize(value) == value);
    lemma_collapse_without_double_dash(value);
    assert(trim_edges_start(value) == value);
    assert(trim_edges_end(value) == value);
    assert(value.take(value.len() as int) == value);
}


/// Sanitizing keeps the length and every slug character in place, and puts a
/// `-` wherever another character stood.
pub proof fn lemma_sanitize_replaces_only_foreign_chars(s: Seq<char>)
    ensures
        sanitize(s).len() == s.len(),
        forall|i: int| 0 <= i < s.len() && is_slug_char(s[i]) ==> #[trigger] sanitize(s)[i] == s[i],
        forall|i: int| 0 <= i < s.len() && !is_slug_char(s[i]) ==> #[trigger] sanitize(s)[i] == '-',
{
}

/// The characters of `s` other than `-`, in order.
pub open spec fn without_dashes(s: Seq<char>) -> Seq<char>
    decreases s.len(),
{
    if s.len() == 0 {
        s
    } else if s.last() == '-' {
        without_dashes(s.drop_last())
    } else {
        without_dashes(s.drop_last()).push(s.last())
    }
}

/// Collapsing dashes leaves no two `-` side by side, keeps every other
/// character in order, keeps a text without `--` unchanged, and keeps a `-`
/// at the end exactly when there was one.
pub proof fn lemma_collapse_dashes_only_merges_runs(s: Seq<char>)
    ensures
        forall|i: int|
            0 <= i < collapse_dashes(s).len() - 1 ==> !(collapse_dashes(s)[i] == '-' && #[trigger] collapse_dashes(
                s,
            )[i + 1] == '-'),
        without_dashes(collapse_dashes(s)) == without_dashes(s),
        (forall|i: int| 0 <= i < s.len() - 1 ==> !(s[i] == '-' && #[trigger] s[i + 1] == '-')) ==> collapse_dashes(s)
            == s,
        s.len() > 0 ==> collapse_dashes(s).len() > 0 && collapse_dashes(s).last() == s.last(),
    decreases s.len(),
{
    if s.len() > 0 {
        let t = s.drop_last();
        lemma_collapse_dashes_only_merges_runs(t);
        let ct = collapse_dashes(t);
        let c = collapse_dashes(s);
        if s.len() >= 2 && s.last() == '-' && s[s.len() - 2] == '-' {
            assert(t.last() == s[s.len() - 2]);
            assert(c == ct);
            if forall|i: int| 0 <= i < s.len() - 1 ==> !(s[i] == '-' && #[trigger] s[i + 1] == '-') {
                assert(!(s[s.len() - 2] == '-' && s[s.len() - 2 + 1] == '-'));
            }
        } else {
            assert(c == ct.push(s.last()));
            assert(c.drop_last() == ct);
            assert forall|i: int| 0 <= i < c.len() - 1 implies !(c[i] == '-' && #[trigger] c[i + 1] == '-') by {
                if i < c.len() - 2 {
                    assert(c[i] == ct[i] && c[i + 1] == ct[i + 1]);
                } else {
                    assert(c[i] == ct.last());
                    if s.len() >= 2 {
                        assert(t.last() == s[s.len() - 2]);
                    }
                }
            }
            if forall|i: int| 0 <= i < s.len() - 1 ==> !(s[i] == '-' && #[trigger] s[i + 1] == '-') {
                assert forall|i: int| 0 <= i < t.len() - 1 implies !(t[i] == '-' && #[trigger] t[i + 1] == '-') by {
                    assert(t[i] == s[i] && t[i + 1] == s[i + 1]);
                }
                assert(ct.push(s.last()) == s);
            }
        }
    }
}

/// The stem is the longest prefix without `.`: it holds no `.`, and the
/// character after it, if any, is a `.`.
pub proof fn lemma_stem_is_prefix_before_first_dot(s: Seq<char>)
    ensures
        stem(s).len() <= s.len(),
        stem(s) == s.take(stem(s).len() as int),
        forall|i: int| 0 <= i < stem(s).len() ==> #[trigger] stem(s)[i] != '.',
        stem(s).len() < s.len() ==> s[stem(s).len() as int] == '.',
    decreases s.len(),
{
    if s.len() > 0 && s[0] != '.' {
        let t = s.drop_first();
        lemma_stem_is_prefix_before_first_dot(t);
        let st = stem(t);
        assert(stem(s) == seq![s[0]] + st);
        assert(seq![s[0]] + t.take(st.len() as int) == s.take(st.len() + 1int));
        assert forall|i: int| 0 <= i < stem(s).len() implies #[trigger] stem(s)[i] != '.' by {
            if i > 0 {
                assert(stem(s)[i] == st[i - 1]);
            }
        }
        if stem(s).len() < s.len() {
            assert(s[stem(s).len() as int] == t[st.len() as int]);
        }
    } else if s.len() > 0 {
        assert(s.take(0) == Seq::<char>::empty());
    }
}

/// Value of a lower-case hexadecimal digit.
pub open spec fn hex_value(c: char) -> int {
    if '0' <= c && c <= '9' {
        c as int - 48
    } else {
        c as int - 87
    }
}

/// The hexadecimal spelling reads back as the bytes: two digits per byte,
/// each `0`-`9` or `a`-`f`, the first worth sixteen times its value.
pub proof fn lemma_hex_lower_spells_bytes(bytes: Seq<u8>)
    ensures
        hex_lower(bytes).len() == 2 * bytes.len(),
        forall|i: int|
            0 <= i < hex_lower(bytes).len() ==> ('0' <= #[trigger] hex_lower(bytes)[i] <= '9') || ('a'
                <= hex_lower(bytes)[i] <= 'f'),
        forall|i: int|
            0 <= i < bytes.len() ==> hex_value(hex_lower(bytes)[2 * i]) * 16 + hex_value(
                hex_lower(bytes)[2 * i + 1],
            ) == #[trigger] bytes[i],
    decreases bytes.len(),
{
    if bytes.len() > 0 {
        let t = bytes.drop_last();
        lemma_hex_lower_spells_bytes(t);
        let ht = hex_lower(t);
        let b = bytes.last() as int;
        let d = seq![hex_digit(b / 16), hex_digit(b % 16)];
        let h = hex_lower(bytes);
        assert(h == ht + d);
        assert(hex_value(hex_digit(b / 16)) == b / 16);
        assert(hex_value(hex_digit(b % 16)) == b % 16);
        assert forall|i: int| 0 <= i < h.len() implies ('0' <= #[trigger] h[i] <= '9') || ('a' <= h[i] <= 'f') by {
            if i < ht.len() {
                assert(h[i] == ht[i]);
            } else {
                assert(h[i] == d[i - ht.len()]);
            }
        }
        assert forall|i: int| 0 <= i < bytes.len() implies hex_value(h[2 * i]) * 16 + hex_value(h[2 * i + 1])
            == #[trigger] bytes[i] by {
            if i < t.len() {
                assert(h[2 * i] == ht[2 * i] && h[2 * i + 1] == ht[2 * i + 1]);
                assert(bytes[i] == t[i]);
            } else {
                assert(h[2 * i] == d[0] && h[2 * i + 1] == d[1]);
            }
        }
    }
}


proof fn lemma_trim_edges_start_drops_leading(s: Seq<char>)
    ensures
        exists|a: int|
            0 <= a <= s.len() && trim_edges_start(s) == s.subrange(a, s.len() as int) && (forall|i: int|
                0 <= i < a ==> is_edge_char(#[trigger] s[i])) && (a < s.len() ==> !is_edge_char(s[a])),
    decreases s.len(),
{
    if s.len() > 0 && is_edge_char(s[0]) {
        let t = s.drop_first();
        lemma_trim_edges_start_drops_leading(t);
        let a = choose|a: int|
            0 <= a <= t.len() && trim_edges_start(t) == t.subrange(a, t.len() as int) && (forall|i: int|
                0 <= i < a ==> is_edge_char(#[trigger] t[i])) && (a < t.len() ==> !is_edge_char(t[a]));
        assert(t.subrange(a, t.len() as int) == s.subrange(a + 1, s.len() as int));
        assert forall|i: int| 0 <= i < a + 1 implies is_edge_char(#[trigger] s[i]) by {
            if i > 0 {
                assert(s[i] == t[i - 1]);
            }
        }
        if a + 1 < s.len() {
            assert(s[a + 1] == t[a]);
        }
    } else {
        assert(s.subrange(0, s.len() as int) == s);
    }
}

proof fn lemma_trim_edges_end_drops_trailing(s: Seq<char>)
    ensures
        exists|b: int|
            0 <= b <= s.len() && trim_edges_end(s) == s.subrange(0, b) && (forall|i: int|
                b <= i < s.len() ==> is_edge_char(#[trigger] s[i])) && (b > 0 ==> !is_edge_char(s[b - 1])),
    decreases s.len(),
{
    if s.len() > 0 && is_edge_char(s.last()) {
        let t = s.drop_last();
        lemma_trim_edges_end_drops_trailing(t);
        let b = choose|b: int|
            0 <= b <= t.len() && trim_edges_end(t) == t.subrange(0, b) && (forall|i: int|
                b <= i < t.len() ==> is_edge_char(#[trigger] t[i])) && (b > 0 ==> !is_edge_char(t[b - 1]));
        assert(t.subrange(0, b) == s.subrange(0, b));
        assert forall|i: int| b <= i < s.len() implies is_edge_char(#[trigger] s[i]) by {
            if i < s.len() - 1 {
                assert(s[i] == t[i]);
            }
        }
        if b > 0 {
            assert(s[b - 1] == t[b - 1]);
        }
    } else {
        assert(s.subrange(0, s.len() as int) == s);
    }
}

/// Trimming a slug removes `-`, `_` and `.` at both ends and nothing else:
/// the result is a contiguous part of the text, everything cut off before and
/// after it is one of those characters, and the result neither starts nor ends
/// with one.
pub proof fn lemma_trim_edges_cuts_only_outer_edges(s: Seq<char>)
    ensures
        exists|a: int, b: int|
            0 <= a <= b <= s.len() && #[trigger] trim_edges(s) == s.subrange(a, b) && (forall|i: int|
                0 <= i < a ==> is_edge_char(#[trigger] s[i])) && (forall|i: int|
                b <= i < s.len() ==> is_edge_char(#[trigger] s[i])),
        trim_edges(s).len() > 0 ==> !is_edge_char(trim_edges(s)[0]) && !is_edge_char(trim_edges(s).last()),
{
    lemma_trim_edges_start_drops_leading(s);
    let a = choose|a: int|
        0 <= a <= s.len() && trim_edges_start(s) == s.subrange(a, s.len() as int) && (forall|i: int|
            0 <= i < a ==> is_edge_char(#[trigger] s[i])) && (a < s.len() ==> !is_edge_char(s[a]));
    let u = trim_edges_start(s);
    lemma_trim_edges_end_drops_trailing(u);
    let b = choose|b: int|
        0 <= b <= u.len() && trim_edges_end(u) == u.subrange(0, b) && (forall|i: int|
            b <= i < u.len() ==> is_edge_char(#[trigger] u[i])) && (b > 0 ==> !is_edge_char(u[b - 1]));
    assert(u.subrange(0, b) == s.subrange(a, a + b));
    assert forall|i: int| a + b <= i < s.len() implies is_edge_char(#[trigger] s[i]) by {
        assert(s[i] == u[i - a]);
    }
    if b > 0 {
        assert(trim_edges(s)[0] == s[a]);
        assert(trim_edges(s).last() == u[b - 1]);
    }
    assert(0 <= a <= a + b <= s.len() && trim_edges(s) == s.subrange(a, a + b));
}

} // verus!
