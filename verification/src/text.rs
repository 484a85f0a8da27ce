//! Character-level text helpers shared by the parsers and builders.
//!
//! Text is handled as sequences of `char`. Unicode classification and case
//! mapping come from std and are named here (their tables take pages); the
//! White_Space property, the ASCII case mappings and UTF-8 encoding are
//! stated, and everything built on top of them is verified.

use vstd::prelude::*;
use vstd::string::*;

verus! {

// ---------------------------------------------------------------------------
// Unicode properties and case mappings (std)
// ---------------------------------------------------------------------------

/// `char::is_alphanumeric` (Unicode Alphabetic or Numeric).
pub uninterp spec fn is_alphanumeric(c: char) -> bool;

/// `char::is_alphabetic` (Unicode Alphabetic).
pub uninterp spec fn is_alphabetic(c: char) -> bool;

/// `char::is_whitespace`: the Unicode White_Space property, which holds of
/// U+0009..=U+000D, U+0020, U+0085, U+00A0, U+1680, U+2000..=U+200A, U+2028,
/// U+2029, U+202F, U+205F and U+3000.
pub open spec fn is_whitespace(c: char) -> bool {
    let n = c as int;
    ||| 0x9 <= n <= 0xD
    ||| n == 0x20
    ||| n == 0x85
    ||| n == 0xA0
    ||| n == 0x1680
    ||| 0x2000 <= n <= 0x200A
    ||| n == 0x2028
    ||| n == 0x2029
    ||| n == 0x202F
    ||| n == 0x205F
    ||| n == 0x3000
}

/// `char::is_lowercase` (Unicode Lowercase).
pub uninterp spec fn is_lowercase(c: char) -> bool;

/// `char::is_uppercase` (Unicode Uppercase).
pub uninterp spec fn is_uppercase(c: char) -> bool;

/// The characters that `char::to_lowercase` yields.
pub uninterp spec fn char_lowercase(c: char) -> Seq<char>;

/// The characters that `char::to_uppercase` yields.
pub uninterp spec fn char_uppercase(c: char) -> Seq<char>;

/// The characters of `str::to_lowercase` applied to a string.
pub uninterp spec fn str_lowercase(s: Seq<char>) -> Seq<char>;

/// Calls `char::is_alphanumeric`; its result is named `is_alphanumeric`.
#[verifier::external_body]
pub(crate) fn char_is_alphanumeric(c: char) -> (r: bool)
    ensures
        r == is_alphanumeric(c),
{
    c.is_alphanumeric()
}

/// Calls `char::is_alphabetic`; its result is named `is_alphabetic`.
#[verifier::external_body]
pub(crate) fn char_is_alphabetic(c: char) -> (r: bool)
    ensures
        r == is_alphabetic(c),
{
    c.is_alphabetic()
}

/// Whether a character has the Unicode White_Space property.
pub(crate) fn char_is_whitespace(c: char) -> (r: bool)
    ensures
        r == is_whitespace(c),
{
    let n = c as u32;
    (0x9 <= n && n <= 0xD) || n == 0x20 || n == 0x85 || n == 0xA0 || n == 0x1680
        || (0x2000 <= n && n <= 0x200A) || n == 0x2028 || n == 0x2029 || n == 0x202F
        || n == 0x205F || n == 0x3000
}

/// Calls `char::is_lowercase`; its result is named `is_lowercase`.
#[verifier::external_body]
pub(crate) fn char_is_lowercase(c: char) -> (r: bool)
    ensures
        r == is_lowercase(c),
{
    c.is_lowercase()
}

/// Calls `char::is_uppercase`; its result is named `is_uppercase`.
#[verifier::external_body]
pub(crate) fn char_is_uppercase(c: char) -> (r: bool)
    ensures
        r == is_uppercase(c),
{
    c.is_uppercase()
}

/// Collects `char::to_lowercase`; the characters are named `char_lowercase`.
#[verifier::external_body]
pub(crate) fn char_to_lowercase(c: char) -> (r: Vec<char>)
    ensures
        r@ == char_lowercase(c),
{
    c.to_lowercase().collect()
}

/// Collects `char::to_uppercase`; the characters are named `char_uppercase`.
#[verifier::external_body]
pub(crate) fn char_to_uppercase(c: char) -> (r: Vec<char>)
    ensures
        r@ == char_uppercase(c),
{
    c.to_uppercase().collect()
}

/// Calls `str::to_lowercase`; its characters are named `str_lowercase`.
#[verifier::external_body]
pub(crate) fn to_lowercase(s: &str) -> (r: String)
    ensures
        r@ == str_lowercase(s@),
{
    s.to_lowercase()
}

/// `char::to_ascii_lowercase`: 'A'..='Z' map to 'a'..='z', all else unchanged.
pub open spec fn ascii_lower(c: char) -> char {
    if 'A' <= c && c <= 'Z' {
        ((c as int) + 32) as char
    } else {
        c
    }
}

/// `char::to_ascii_uppercase`: 'a'..='z' map to 'A'..='Z', all else unchanged.
pub open spec fn ascii_upper(c: char) -> char {
    if 'a' <= c && c <= 'z' {
        ((c as int) - 32) as char
    } else {
        c
    }
}

/// ASCII lowercase of one character (`char::to_ascii_lowercase`).
pub(crate) fn char_to_ascii_lowercase(c: char) -> (r: char)
    ensures
        r == ascii_lower(c),
{
    if 'A' <= c && c <= 'Z' {
        ((c as u8) + 32) as char
    } else {
        c
    }
}

/// ASCII uppercase of one character (`char::to_ascii_uppercase`).
pub(crate) fn char_to_ascii_uppercase(c: char) -> (r: char)
    ensures
        r == ascii_upper(c),
{
    if 'a' <= c && c <= 'z' {
        ((c as u8) - 32) as char
    } else {
        c
    }
}

// ---------------------------------------------------------------------------
// Conversions between strings and character vectors (std)
// ---------------------------------------------------------------------------

/// Collects `str::chars`: the characters of a string slice, in order.
#[verifier::external_body]
pub(crate) fn chars_of(s: &str) -> (r: Vec<char>)
    ensures
        r@ == s@,
{
    s.chars().collect()
}

/// Collects characters into a `String` (`FromIterator<&char>`).
#[verifier::external_body]
pub(crate) fn string_of(v: &[char]) -> (r: String)
    ensures
        r@ == v@,
{
    v.iter().collect()
}

/// What `std::str::from_utf8` makes of the bytes: the text, or the error's message.
pub uninterp spec fn utf8_decode(bytes: Seq<u8>) -> Result<Seq<char>, Seq<char>>;

/// Calls `std::str::from_utf8`; the outcome is named `utf8_decode`. It
/// succeeds exactly on valid UTF-8, that is on the encoding of some text, and
/// then gives that text.
#[verifier::external_body]
pub(crate) fn decode_utf8(bytes: &[u8]) -> (r: Result<String, String>)
    ensures
        match r {
            Ok(s) => utf8_decode(bytes@) == Ok::<Seq<char>, Seq<char>>(s@),
            Err(e) => utf8_decode(bytes@) == Err::<Seq<char>, Seq<char>>(e@),
        },
        r matches Ok(s) ==> utf8_encode(s@) == bytes@,
        (exists|t: Seq<char>| utf8_encode(t) == bytes@) ==> r is Ok,
{
    match std::str::from_utf8(bytes) {
        Ok(s) => Ok(s.to_string()),
        Err(e) => Err(e.to_string()),
    }
}

/// The UTF-8 encoding of one character: one byte below U+0080, then two,
/// three or four bytes, a lead byte and six payload bits per continuation byte.
pub open spec fn utf8_char(c: char) -> Seq<u8> {
    let n = c as int;
    if n < 0x80 {
        seq![n as u8]
    } else if n < 0x800 {
        seq![(0xC0 + n / 64) as u8, (0x80 + n % 64) as u8]
    } else if n < 0x10000 {
        seq![(0xE0 + n / 4096) as u8, (0x80 + (n / 64) % 64) as u8, (0x80 + n % 64) as u8]
    } else {
        seq![
            (0xF0 + n / 262144) as u8,
            (0x80 + (n / 4096) % 64) as u8,
            (0x80 + (n / 64) % 64) as u8,
            (0x80 + n % 64) as u8,
        ]
    }
}

/// The UTF-8 encoding of a text: its characters' encodings in order.
pub open spec fn utf8_encode(s: Seq<char>) -> Seq<u8>
    decreases s.len(),
{
    if s.len() == 0 {
        Seq::empty()
    } else {
        utf8_encode(s.drop_last()) + utf8_char(s.last())
    }
}

/// Copies `str::as_bytes`: the string's UTF-8 encoding.
#[verifier::external_body]
pub(crate) fn encode_utf8(s: &str) -> (r: Vec<u8>)
    ensures
        r@ == utf8_encode(s@),
{
    s.as_bytes().to_vec()
}

// ---------------------------------------------------------------------------
// Derived text operations (verified)
// ---------------------------------------------------------------------------

pub open spec fn code(c: char) -> int {
    c as int
}

/// Lowercase of a whole text, character by character (`flat_map(char::to_lowercase)`).
pub open spec fn chars_lowercase(s: Seq<char>) -> Seq<char>
    decreases s.len(),
{
    if s.len() == 0 {
        Seq::empty()
    } else {
        chars_lowercase(s.drop_last()) + char_lowercase(s.last())
    }
}

/// ASCII lowercase of a text (`str::to_ascii_lowercase`).
pub open spec fn ascii_lowercase(s: Seq<char>) -> Seq<char> {
    s.map_values(|c: char| ascii_lower(c))
}

/// ASCII uppercase of a text (`str::to_ascii_uppercase`).
pub open spec fn ascii_uppercase(s: Seq<char>) -> Seq<char> {
    s.map_values(|c: char| ascii_upper(c))
}

pub fn to_ascii_lowercase(s: &str) -> (r: String)
    ensures
        r@ == ascii_lowercase(s@),
{
    let cs = chars_of(s);
    let mut out: Vec<char> = Vec::new();
    for i in 0..cs.len()
        invariant
            cs@ == s@,
            out@ == ascii_lowercase(cs@.take(i as int)),
    {
        let c = char_to_ascii_lowercase(cs[i]);
        out.push(c);
        assert(ascii_lowercase(cs@.take(i + 1)) =~= ascii_lowercase(cs@.take(i as int)).push(c));
    }
    assert(cs@.take(cs.len() as int) =~= cs@);
    string_of(&out)
}

pub fn to_ascii_uppercase(s: &str) -> (r: String)
    ensures
        r@ == ascii_uppercase(s@),
{
    let cs = chars_of(s);
    let mut out: Vec<char> = Vec::new();
    for i in 0..cs.len()
        invariant
            cs@ == s@,
            out@ == ascii_uppercase(cs@.take(i as int)),
    {
        let c = char_to_ascii_uppercase(cs[i]);
        out.push(c);
        assert(ascii_uppercase(cs@.take(i + 1)) =~= ascii_uppercase(cs@.take(i as int)).push(c));
    }
    assert(cs@.take(cs.len() as int) =~= cs@);
    string_of(&out)
}

/// `str::trim_start`: drop leading Unicode whitespace.
pub open spec fn trim_start(s: Seq<char>) -> Seq<char>
    decreases s.len(),
{
    if s.len() > 0 && is_whitespace(s[0]) {
        trim_start(s.drop_first())
    } else {
        s
    }
}

/// `str::trim_end`: drop trailing Unicode whitespace.
pub open spec fn trim_end(s: Seq<char>) -> Seq<char>
    decreases s.len(),
{
    if s.len() > 0 && is_whitespace(s.last()) {
        trim_end(s.drop_last())
    } else {
        s
    }
}

/// `str::trim`: drop leading and trailing Unicode whitespace.
pub open spec fn trim(s: Seq<char>) -> Seq<char> {
    trim_end(trim_start(s))
}

pub fn trim_chars(s: &[char]) -> (r: Vec<char>)
    ensures
        r@ == trim(s@),
{
    let n = s.len();
    let mut i: usize = 0;
    assert(s@.skip(0) =~= s@);
    while i < n && char_is_whitespace(s[i])
        invariant
            n == s@.len(),
            i <= n,
            trim_start(s@) == trim_start(s@.skip(i as int)),
        decreases n - i,
    {
        assert(s@.skip(i as int)[0] == s@[i as int]);
        assert(s@.skip(i as int).drop_first() =~= s@.skip(i + 1));
        i = i + 1;
    }
    assert(trim_start(s@) == s@.skip(i as int)) by {
        if i < n {
        } else {
            assert(s@.skip(i as int).len() == 0);
        }
    }
    let mut j: usize = n;
    while j > i && char_is_whitespace(s[j - 1])
        invariant
            n == s@.len(),
            i <= j <= n,
            trim(s@) == trim_end(s@.subrange(i as int, j as int)),
        decreases j,
    {
        assert(s@.subrange(i as int, j as int).drop_last() =~= s@.subrange(i as int, j - 1));
        j = j - 1;
    }
    let mut out: Vec<char> = Vec::new();
    let mut k: usize = i;
    while k < j
        invariant
            n == s@.len(),
            i <= k <= j <= n,
            out@ == s@.subrange(i as int, k as int),
        decreases j - k,
    {
        out.push(s[k]);
        assert(out@ =~= s@.subrange(i as int, k + 1));
        k = k + 1;
    }
    out
}

pub fn trim_str(s: &str) -> (r: String)
    ensures
        r@ == trim(s@),
{
    let cs = chars_of(s);
    let t = trim_chars(cs.as_slice());
    string_of(t.as_slice())
}

/// The text with the lowercase of every character, in order.
pub fn lowercase_chars(s: &[char]) -> (r: Vec<char>)
    ensures
        r@ == chars_lowercase(s@),
{
    let mut out: Vec<char> = Vec::new();
    for i in 0..s.len()
        invariant
            out@ == chars_lowercase(s@.take(i as int)),
    {
        let lower = char_to_lowercase(s[i]);
        let ghost before = out@;
        let mut k: usize = 0;
        while k < lower.len()
            invariant
                out@ == before + lower@.take(k as int),
                k <= lower@.len(),
                before == chars_lowercase(s@.take(i as int)),
                i < s@.len(),
                lower@ == char_lowercase(s@[i as int]),
            decreases lower.len() - k,
        {
            out.push(lower[k]);
            assert(out@ =~= before + lower@.take(k + 1));
            k = k + 1;
        }
        assert(lower@.take(lower.len() as int) =~= lower@);
        assert(s@.take(i + 1).drop_last() =~= s@.take(i as int));
        assert(s@.take(i + 1).last() == s@[i as int]);
        assert(s@.take(i + 1).len() > 0);
        assert(chars_lowercase(s@.take(i + 1)) == chars_lowercase(s@.take(i as int)) + lower@);
    }
    assert(s@.take(s.len() as int) =~= s@);
    out
}

/// Whether any character of the text satisfies `p`.
pub open spec fn any_char(s: Seq<char>, p: spec_fn(char) -> bool) -> bool {
    exists|i: int| 0 <= i < s.len() && p(#[trigger] s[i])
}

pub fn has_lowercase(s: &str) -> (r: bool)
    ensures
        r == any_char(s@, |c: char| is_lowercase(c)),
{
    let cs = chars_of(s);
    for i in 0..cs.len()
        invariant
            cs@ == s@,
            forall|k: int| 0 <= k < i ==> !is_lowercase(#[trigger] cs@[k]),
    {
        if char_is_lowercase(cs[i]) {
            return true;
        }
    }
    false
}

pub fn has_uppercase(s: &str) -> (r: bool)
    ensures
        r == any_char(s@, |c: char| is_uppercase(c)),
{
    let cs = chars_of(s);
    for i in 0..cs.len()
        invariant
            cs@ == s@,
            forall|k: int| 0 <= k < i ==> !is_uppercase(#[trigger] cs@[k]),
    {
        if char_is_uppercase(cs[i]) {
            return true;
        }
    }
    false
}

pub fn has_alphabetic(s: &str) -> (r: bool)
    ensures
        r == any_char(s@, |c: char| is_alphabetic(c)),
{
    let cs = chars_of(s);
    for i in 0..cs.len()
        invariant
            cs@ == s@,
            forall|k: int| 0 <= k < i ==> !is_alphabetic(#[trigger] cs@[k]),
    {
        if char_is_alphabetic(cs[i]) {
            return true;
        }
    }
    false
}

pub fn has_alphanumeric(s: &str) -> (r: bool)
    ensures
        r == any_char(s@, |c: char| is_alphanumeric(c)),
{
    let cs = chars_of(s);
    for i in 0..cs.len()
        invariant
            cs@ == s@,
            forall|k: int| 0 <= k < i ==> !is_alphanumeric(#[trigger] cs@[k]),
    {
        if char_is_alphanumeric(cs[i]) {
            return true;
        }
    }
    false
}

/// Whether a name mixes letter cases (`iPhone`, `LaTeX`).
pub open spec fn mixed_case(s: Seq<char>) -> bool {
    any_char(s, |c: char| is_lowercase(c)) && any_char(s, |c: char| is_uppercase(c))
}

pub fn is_mixed_case(s: &str) -> (r: bool)
    ensures
        r == mixed_case(s@),
{
    has_lowercase(s) && has_uppercase(s)
}

/// Whether `c` occurs in the text.
pub fn contains_char(s: &str, c: char) -> (r: bool)
    ensures
        r == s@.contains(c),
{
    let cs = chars_of(s);
    for i in 0..cs.len()
        invariant
            cs@ == s@,
            forall|k: int| 0 <= k < i ==> cs@[k] != c,
    {
        if cs[i] == c {
            assert(s@[i as int] == c);
            return true;
        }
    }
    false
}

/// Whether `sub` occurs in `s` at position `i`.
pub open spec fn occurs_at(s: Seq<char>, sub: Seq<char>, i: int) -> bool {
    0 <= i && i + sub.len() <= s.len() && s.subrange(i, i + sub.len()) == sub
}

/// `str::contains` with a string pattern.
pub open spec fn contains_seq(s: Seq<char>, sub: Seq<char>) -> bool {
    exists|i: int| occurs_at(s, sub, i)
}

pub open spec fn starts_with(s: Seq<char>, p: Seq<char>) -> bool {
    p.len() <= s.len() && s.take(p.len() as int) == p
}

pub open spec fn ends_with(s: Seq<char>, p: Seq<char>) -> bool {
    p.len() <= s.len() && s.skip(s.len() - p.len()) == p
}

pub fn matches_at(s: &[char], sub: &[char], i: usize) -> (r: bool)
    ensures
        r == occurs_at(s@, sub@, i as int),
{
    if i > s.len() || sub.len() > s.len() - i {
        return false;
    }
    let mut k: usize = 0;
    while k < sub.len()
        invariant
            i + sub.len() <= s.len(),
            i + sub@.len() <= s@.len(),
            k <= sub@.len(),
            forall|t: int| 0 <= t < k ==> s@[i + t] == sub@[t],
        decreases sub.len() - k,
    {
        assert(i + k < s@.len());
        if s[i + k] != sub[k] {
            assert(s@.subrange(i as int, i + sub@.len())[k as int] != sub@[k as int]);
            return false;
        }
        k = k + 1;
    }
    assert(s@.subrange(i as int, i + sub@.len()) =~= sub@);
    true
}

pub fn contains_chars(s: &[char], sub: &[char]) -> (r: bool)
    ensures
        r == contains_seq(s@, sub@),
{
    if sub.len() > s.len() {
        return false;
    }
    if sub.len() == 0 {
        assert(s@.subrange(0, 0) =~= sub@);
        assert(occurs_at(s@, sub@, 0));
        return true;
    }
    let end = s.len() - sub.len() + 1;
    let mut i: usize = 0;
    while i < end
        invariant
            end == s@.len() - sub@.len() + 1,
            forall|t: int| 0 <= t < i ==> !occurs_at(s@, sub@, t),
        decreases end - i,
    {
        if matches_at(s, sub, i) {
            return true;
        }
        i = i + 1;
    }
    false
}

pub fn contains_str(s: &str, sub: &str) -> (r: bool)
    ensures
        r == contains_seq(s@, sub@),
{
    let a = chars_of(s);
    let b = chars_of(sub);
    contains_chars(a.as_slice(), b.as_slice())
}

pub fn ends_with_str(s: &str, p: &str) -> (r: bool)
    ensures
        r == ends_with(s@, p@),
{
    let a = chars_of(s);
    let b = chars_of(p);
    if b.len() > a.len() {
        return false;
    }
    let r = matches_at(a.as_slice(), b.as_slice(), a.len() - b.len());
    assert(a@.skip(a@.len() - b@.len()) =~= a@.subrange(a@.len() - b@.len(), a@.len() as int));
    r
}

/// `str::replace(pat, "")`: every occurrence of `pat`, found left to right
/// without overlap, removed (an empty pattern changes nothing).
pub open spec fn remove_all(s: Seq<char>, pat: Seq<char>) -> Seq<char>
    decreases s.len(),
{
    if s.len() == 0 || pat.len() == 0 {
        s
    } else if occurs_at(s, pat, 0) {
        remove_all(s.skip(pat.len() as int), pat)
    } else {
        seq![s[0]] + remove_all(s.skip(1), pat)
    }
}

pub fn remove_all_chars(s: &[char], pat: &[char]) -> (r: Vec<char>)
    ensures
        r@ == remove_all(s@, pat@),
{
    let mut out: Vec<char> = Vec::new();
    if pat.len() == 0 {
        for k in 0..s.len()
            invariant
                out@ == s@.take(k as int),
        {
            out.push(s[k]);
            assert(out@ =~= s@.take(k + 1));
        }
        assert(s@.take(s.len() as int) =~= s@);
        return out;
    }
    let mut i: usize = 0;
    assert(s@.skip(0) =~= s@);
    assert(out@ + remove_all(s@.skip(0), pat@) =~= remove_all(s@, pat@));
    while i < s.len()
        invariant
            i <= s@.len(),
            pat@.len() > 0,
            out@ + remove_all(s@.skip(i as int), pat@) == remove_all(s@, pat@),
        decreases s.len() - i,
    {
        let ghost rest = s@.skip(i as int);
        if matches_at(s, pat, i) {
            proof {
                assert(rest.subrange(0, pat@.len() as int) =~= s@.subrange(i as int, i + pat@.len()));
                assert(occurs_at(rest, pat@, 0));
                assert(rest.skip(pat@.len() as int) =~= s@.skip(i + pat@.len()));
            }
            i = i + pat.len();
        } else {
            proof {
                if occurs_at(rest, pat@, 0) {
                    assert(rest.subrange(0, pat@.len() as int) =~= s@.subrange(i as int, i + pat@.len()));
                }
                assert(rest.skip(1) =~= s@.skip(i + 1));
                assert(rest[0] == s@[i as int]);
            }
            let ghost before = out@;
            out.push(s[i]);
            assert(out@ =~= before + seq![s@[i as int]]);
            assert(out@ + remove_all(s@.skip(i + 1), pat@) =~= before + (seq![s@[i as int]] + remove_all(s@.skip(i + 1), pat@)));
            i = i + 1;
        }
    }
    assert(s@.skip(i as int).len() == 0);
    assert(out@ + remove_all(s@.skip(i as int), pat@) =~= out@);
    out
}

// ---------------------------------------------------------------------------
// Lexicographic order (the order of `str`'s `Ord`, by code point)
// ---------------------------------------------------------------------------

/// `a` sorts before `b` when compared from position `i` on.
pub open spec fn lex_lt_from(a: Seq<char>, b: Seq<char>, i: int) -> bool
    decreases a.len() - i,
{
    if i < 0 || i >= a.len() {
        0 <= i < b.len()
    } else if i >= b.len() {
        false
    } else if a[i] != b[i] {
        code(a[i]) < code(b[i])
    } else {
        lex_lt_from(a, b, i + 1)
    }
}

/// Lexicographic order on texts: the order of Rust's `str` comparison.
pub open spec fn lex_lt(a: Seq<char>, b: Seq<char>) -> bool {
    lex_lt_from(a, b, 0)
}

pub proof fn lemma_lex_irreflexive_from(a: Seq<char>, i: int)
    requires
        0 <= i,
    ensures
        !lex_lt_from(a, a, i),
    decreases a.len() - i,
{
    if i < a.len() {
        lemma_lex_irreflexive_from(a, i + 1);
    }
}

pub proof fn lemma_lex_transitive_from(a: Seq<char>, b: Seq<char>, c: Seq<char>, i: int)
    requires
        0 <= i,
        lex_lt_from(a, b, i),
        lex_lt_from(b, c, i),
    ensures
        lex_lt_from(a, c, i),
    decreases a.len() - i,
{
    if i < a.len() && i < b.len() && i < c.len() && a[i] == b[i] && b[i] == c[i] {
        lemma_lex_transitive_from(a, b, c, i + 1);
    }
}

pub proof fn lemma_lex_total_from(a: Seq<char>, b: Seq<char>, i: int)
    requires
        0 <= i <= a.len(),
        i <= b.len(),
        a.subrange(0, i) == b.subrange(0, i),
        a != b,
    ensures
        lex_lt_from(a, b, i) || lex_lt_from(b, a, i),
    decreases a.len() - i,
{
    if i < a.len() && i < b.len() && a[i] == b[i] {
        assert(a.subrange(0, i + 1) =~= a.subrange(0, i).push(a[i]));
        assert(b.subrange(0, i + 1) =~= b.subrange(0, i).push(b[i]));
        lemma_lex_total_from(a, b, i + 1);
    } else if i == a.len() && i == b.len() {
        assert(a =~= a.subrange(0, i));
        assert(b =~= b.subrange(0, i));
    }
}

pub proof fn lemma_lex_irreflexive(a: Seq<char>)
    ensures
        !lex_lt(a, a),
{
    lemma_lex_irreflexive_from(a, 0);
}

pub proof fn lemma_lex_transitive(a: Seq<char>, b: Seq<char>, c: Seq<char>)
    requires
        lex_lt(a, b),
        lex_lt(b, c),
    ensures
        lex_lt(a, c),
{
    lemma_lex_transitive_from(a, b, c, 0);
}

pub proof fn lemma_lex_total(a: Seq<char>, b: Seq<char>)
    requires
        a != b,
    ensures
        lex_lt(a, b) || lex_lt(b, a),
{
    assert(a.subrange(0, 0) =~= b.subrange(0, 0));
    lemma_lex_total_from(a, b, 0);
}

pub proof fn lemma_lex_asymmetric(a: Seq<char>, b: Seq<char>)
    requires
        lex_lt(a, b),
    ensures
        !lex_lt(b, a),
{
    if lex_lt(b, a) {
        lemma_lex_transitive(a, b, a);
        lemma_lex_irreflexive(a);
    }
}

pub fn lex_less(a: &[char], b: &[char]) -> (r: bool)
    ensures
        r == lex_lt(a@, b@),
{
    let mut i: usize = 0;
    while i < a.len() && i < b.len() && a[i] == b[i]
        invariant
            lex_lt(a@, b@) == lex_lt_from(a@, b@, i as int),
        decreases a.len() - i,
    {
        i = i + 1;
    }
    if i >= a.len() {
        i < b.len()
    } else if i >= b.len() {
        false
    } else {
        let x = char_code(a[i]);
        let y = char_code(b[i]);
        x < y
    }
}

pub fn char_code(c: char) -> (r: u32)
    ensures
        r == code(c),
{
    c as u32
}

pub fn str_less(a: &str, b: &str) -> (r: bool)
    ensures
        r == lex_lt(a@, b@),
{
    let x = chars_of(a);
    let y = chars_of(b);
    lex_less(x.as_slice(), y.as_slice())
}

pub fn str_eq(a: &str, b: &str) -> (r: bool)
    ensures
        r == (a@ == b@),
{
    let x = chars_of(a);
    let y = chars_of(b);
    if x.len() != y.len() {
        return false;
    }
    for i in 0..x.len()
        invariant
            x@ == a@,
            y@ == b@,
            x@.len() == y@.len(),
            forall|k: int| 0 <= k < i ==> x@[k] == y@[k],
    {
        if x[i] != y[i] {
            return false;
        }
    }
    assert(x@ =~= y@);
    true
}

pub fn copy_str(s: &str) -> (r: String)
    ensures
        r@ == s@,
{
    String::from_str(s)
}

/// Texts joined with a separator between neighbours (`[_]::join`).
pub open spec fn seq_join(parts: Seq<Seq<char>>, sep: Seq<char>) -> Seq<char>
    decreases parts.len(),
{
    if parts.len() == 0 {
        Seq::empty()
    } else if parts.len() == 1 {
        parts[0]
    } else {
        seq_join(parts.drop_last(), sep) + sep + parts.last()
    }
}

pub fn join_strings(parts: &Vec<String>, sep: &str) -> (r: String)
    ensures
        r@ == seq_join(parts@.map_values(|p: String| p@), sep@),
{
    let ghost pv = parts@.map_values(|p: String| p@);
    let mut out = String::new();
    for i in 0..parts.len()
        invariant
            pv == parts@.map_values(|p: String| p@),
            out@ == seq_join(pv.take(i as int), sep@),
    {
        proof {
            assert(pv.take(i + 1).drop_last() =~= pv.take(i as int));
            assert(pv.take(i + 1).last() == parts@[i as int]@);
        }
        if i > 0 {
            out.append(sep);
        } else {
            assert(pv.take(1) =~= seq![pv[0]]);
            assert(out@ =~= Seq::<char>::empty());
        }
        out.append(parts[i].as_str());
        proof {
            if i == 0 {
                assert(out@ =~= pv[0]);
            }
        }
    }
    proof {
        assert(pv.take(parts.len() as int) =~= pv);
    }
    out
}

pub fn join_strs(parts: &Vec<&str>, sep: &str) -> (r: String)
    ensures
        r@ == seq_join(parts@.map_values(|p: &str| p@), sep@),
{
    let ghost pv = parts@.map_values(|p: &str| p@);
    let mut out = String::new();
    for i in 0..parts.len()
        invariant
            pv == parts@.map_values(|p: &str| p@),
            out@ == seq_join(pv.take(i as int), sep@),
    {
        proof {
            assert(pv.take(i + 1).drop_last() =~= pv.take(i as int));
            assert(pv.take(i + 1).last() == parts@[i as int]@);
        }
        if i > 0 {
            out.append(sep);
        } else {
            assert(pv.take(1) =~= seq![pv[0]]);
            assert(out@ =~= Seq::<char>::empty());
        }
        out.append(parts[i]);
        proof {
            if i == 0 {
                assert(out@ =~= pv[0]);
            }
        }
    }
    proof {
        assert(pv.take(parts.len() as int) =~= pv);
    }
    out
}

/// Decimal digits of a number (the `Display` of an unsigned integer).
pub open spec fn decimal(n: nat) -> Seq<char>
    decreases n,
{
    if n < 10 {
        seq![digit_char(n)]
    } else {
        decimal(n / 10) + seq![digit_char(n % 10)]
    }
}

pub open spec fn digit_char(d: nat) -> char {
    ((d + 48) as int) as char
}

pub fn digit(d: usize) -> (r: char)
    requires
        d < 10,
    ensures
        r == digit_char(d as nat),
{
    match d {
        0 => '0',
        1 => '1',
        2 => '2',
        3 => '3',
        4 => '4',
        5 => '5',
        6 => '6',
        7 => '7',
        8 => '8',
        _ => '9',
    }
}

pub fn usize_to_decimal(n: usize) -> (r: String)
    ensures
        r@ == decimal(n as nat),
{
    let mut digits: Vec<char> = Vec::new();
    let mut m = n;
    while m >= 10
        invariant
            decimal(n as nat) == decimal(m as nat) + digits@.reverse(),
        decreases m,
    {
        let d = digit(m % 10);
        proof {
            assert(decimal(m as nat) == decimal((m / 10) as nat) + seq![d]);
            assert((seq![d] + digits@.reverse()) =~= digits@.push(d).reverse());
        }
        digits.push(d);
        m = m / 10;
    }
    let first = digit(m);
    let mut out: Vec<char> = Vec::new();
    out.push(first);
    let mut k = digits.len();
    while k > 0
        invariant
            k <= digits@.len(),
            decimal(n as nat) == seq![first] + digits@.reverse(),
            out@ == seq![first] + digits@.reverse().take((digits@.len() - k) as int),
        decreases k,
    {
        k = k - 1;
        proof {
            assert(digits@.reverse()[(digits@.len() - k - 1) as int] == digits@[k as int]);
        }
        out.push(digits[k]);
        assert(out@ =~= seq![first] + digits@.reverse().take((digits@.len() - k) as int));
    }
    assert(digits@.reverse().take(digits@.len() as int) =~= digits@.reverse());
    string_of(out.as_slice())
}

/// Splitting state after reading `s`: the finished pieces and the piece in
/// progress, cutting at every `sep`.
pub open spec fn scan_split(s: Seq<char>, sep: char) -> (Seq<Seq<char>>, Seq<char>)
    decreases s.len(),
{
    if s.len() == 0 {
        (Seq::empty(), Seq::empty())
    } else {
        let (done, cur) = scan_split(s.drop_last(), sep);
        if s.last() == sep {
            (done.push(cur), Seq::empty())
        } else {
            (done, cur.push(s.last()))
        }
    }
}

/// `str::split(sep)`: the pieces between separators, always one more than
/// there are separators.
pub open spec fn split_on(s: Seq<char>, sep: char) -> Seq<Seq<char>> {
    scan_split(s, sep).0.push(scan_split(s, sep).1)
}

pub open spec fn strip_cr(l: Seq<char>) -> Seq<char> {
    if l.len() > 0 && l.last() == '\r' {
        l.drop_last()
    } else {
        l
    }
}

/// `str::lines`: pieces cut at each `\n` (a `\r` just before it dropped);
/// a last piece without a line end counts only when it is not empty.
pub open spec fn lines(s: Seq<char>) -> Seq<Seq<char>> {
    let (done, cur) = scan_split(s, '\n');
    let done = done.map_values(|l: Seq<char>| strip_cr(l));
    if cur.len() == 0 {
        done
    } else {
        done.push(cur)
    }
}

fn scan_pieces(s: &[char], sep: char) -> (r: (Vec<Vec<char>>, Vec<char>))
    ensures
        (r.0@.map_values(|v: Vec<char>| v@), r.1@) == scan_split(s@, sep),
{
    let mut done: Vec<Vec<char>> = Vec::new();
    let mut cur: Vec<char> = Vec::new();
    for i in 0..s.len()
        invariant
            (done@.map_values(|v: Vec<char>| v@), cur@) == scan_split(s@.take(i as int), sep),
    {
        proof {
            assert(s@.take(i + 1).drop_last() =~= s@.take(i as int));
            assert(s@.take(i + 1).last() == s@[i as int]);
        }
        if s[i] == sep {
            let piece = cur;
            let ghost before = done@.map_values(|v: Vec<char>| v@);
            done.push(piece);
            cur = Vec::new();
            assert(done@.map_values(|v: Vec<char>| v@) =~= before.push(piece@));
        } else {
            cur.push(s[i]);
        }
    }
    assert(s@.take(s.len() as int) =~= s@);
    (done, cur)
}

pub fn split_chars(s: &[char], sep: char) -> (r: Vec<Vec<char>>)
    ensures
        r@.map_values(|v: Vec<char>| v@) == split_on(s@, sep),
{
    let (mut done, cur) = scan_pieces(s, sep);
    let ghost before = done@.map_values(|v: Vec<char>| v@);
    done.push(cur);
    assert(done@.map_values(|v: Vec<char>| v@) =~= before.push(cur@));
    done
}

pub fn strip_cr_chars(l: Vec<char>) -> (r: Vec<char>)
    ensures
        r@ == strip_cr(l@),
{
    let mut l = l;
    if l.len() > 0 && l[l.len() - 1] == '\r' {
        l.pop();
    }
    l
}

pub fn split_lines(s: &[char]) -> (r: Vec<Vec<char>>)
    ensures
        r@.map_values(|v: Vec<char>| v@) == lines(s@),
{
    let (done, cur) = scan_pieces(s, '\n');
    let ghost dv = done@.map_values(|v: Vec<char>| v@);
    let mut out: Vec<Vec<char>> = Vec::new();
    let mut rest = done;
    let mut rev: Vec<Vec<char>> = Vec::new();
    // move the pieces out in order
    while rest.len() > 0
        invariant
            rest@.map_values(|v: Vec<char>| v@) + rev@.map_values(|v: Vec<char>| v@).reverse() == dv,
        decreases rest.len(),
    {
        let ghost rv = rest@.map_values(|v: Vec<char>| v@);
        let ghost vv = rev@.map_values(|v: Vec<char>| v@);
        let x = rest.pop().unwrap();
        rev.push(x);
        assert(rest@.map_values(|v: Vec<char>| v@) =~= rv.drop_last());
        assert(rev@.map_values(|v: Vec<char>| v@) =~= vv.push(x@));
        assert(vv.push(x@).reverse() =~= seq![x@] + vv.reverse());
        assert(rv =~= rv.drop_last().push(x@));
    }
    assert(rest@.map_values(|v: Vec<char>| v@) =~= Seq::<Seq<char>>::empty());
    let ghost target = dv.map_values(|l: Seq<char>| strip_cr(l));
    while rev.len() > 0
        invariant
            out@.map_values(|v: Vec<char>| v@) + rev@.map_values(|v: Vec<char>| v@).reverse().map_values(|l: Seq<char>| strip_cr(l)) == target,
        decreases rev.len(),
    {
        let ghost ov = out@.map_values(|v: Vec<char>| v@);
        let ghost vv = rev@.map_values(|v: Vec<char>| v@);
        let x = rev.pop().unwrap();
        let y = strip_cr_chars(x);
        out.push(y);
        assert(rev@.map_values(|v: Vec<char>| v@) =~= vv.drop_last());
        assert(vv.reverse() =~= seq![vv.last()] + vv.drop_last().reverse());
        assert(out@.map_values(|v: Vec<char>| v@) =~= ov.push(y@));
        assert(ov + vv.reverse().map_values(|l: Seq<char>| strip_cr(l)) =~= ov.push(y@) + vv.drop_last().reverse().map_values(|l: Seq<char>| strip_cr(l)));
    }
    assert(out@.map_values(|v: Vec<char>| v@) =~= target);
    if cur.len() > 0 {
        let ghost ov = out@.map_values(|v: Vec<char>| v@);
        out.push(cur);
        assert(out@.map_values(|v: Vec<char>| v@) =~= ov.push(cur@));
    }
    out
}

pub fn chars_contain(s: &[char], c: char) -> (r: bool)
    ensures
        r == s@.contains(c),
{
    for i in 0..s.len()
        invariant
            forall|k: int| 0 <= k < i ==> s@[k] != c,
    {
        if s[i] == c {
            assert(s@[i as int] == c);
            return true;
        }
    }
    false
}

pub fn chars_eq_str(a: &[char], b: &str) -> (r: bool)
    ensures
        r == (a@ == b@),
{
    let y = chars_of(b);
    if a.len() != y.len() {
        return false;
    }
    for i in 0..a.len()
        invariant
            y@ == b@,
            a@.len() == y@.len(),
            forall|k: int| 0 <= k < i ==> a@[k] == y@[k],
    {
        if a[i] != y[i] {
            return false;
        }
    }
    assert(a@ =~= y@);
    true
}

pub fn chars_contain_str(s: &[char], sub: &str) -> (r: bool)
    ensures
        r == contains_seq(s@, sub@),
{
    let b = chars_of(sub);
    contains_chars(s, b.as_slice())
}

} // verus!
