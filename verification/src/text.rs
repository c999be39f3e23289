//! Character-level text model shared by the whole library.
//!
//! Strings are handled as sequences of `char`s.  Every exec helper here is
//! specified by a spec function over `Seq<char>`, so that callers can state
//! their own contracts in the same vocabulary.
use vstd::prelude::*;

verus! {

// ---------------------------------------------------------------------------
// Character classes
// ---------------------------------------------------------------------------

pub open spec fn is_ascii_digit(c: char) -> bool {
    '0' <= c && c <= '9'
}

pub open spec fn is_ascii_upper(c: char) -> bool {
    'A' <= c && c <= 'Z'
}

pub open spec fn is_ascii_lower(c: char) -> bool {
    'a' <= c && c <= 'z'
}

pub open spec fn is_ascii_alnum(c: char) -> bool {
    is_ascii_digit(c) || is_ascii_upper(c) || is_ascii_lower(c)
}

/// `char::to_ascii_lowercase`.
pub open spec fn lower_char(c: char) -> char {
    if is_ascii_upper(c) {
        ((c as u32) + 32) as char
    } else {
        c
    }
}

/// The Unicode `White_Space` property (what `char::is_whitespace`, `str::trim`,
/// `str::split_whitespace` and the regex class `\s` test).
pub open spec fn is_white_space(c: char) -> bool {
    let u = c as u32;
    ||| 0x09 <= u <= 0x0D
    ||| u == 0x20
    ||| u == 0x85
    ||| u == 0xA0
    ||| u == 0x1680
    ||| 0x2000 <= u <= 0x200A
    ||| u == 0x2028
    ||| u == 0x2029
    ||| u == 0x202F
    ||| u == 0x205F
    ||| u == 0x3000
}

/// General category `Cc` (what `char::is_control` tests).
pub open spec fn is_control(c: char) -> bool {
    let u = c as u32;
    u <= 0x1F || (0x7F <= u && u <= 0x9F)
}

/// General category `Nd` (decimal numbers), the class a regular expression's
/// `\d` stands for.
pub open spec fn is_decimal_digit(c: char) -> bool {
    let u = c as u32;
    ||| 0x30 <= u <= 0x39
    ||| 0x660 <= u <= 0x669
    ||| 0x6F0 <= u <= 0x6F9
    ||| 0x7C0 <= u <= 0x7C9
    ||| 0x966 <= u <= 0x96F
    ||| 0x9E6 <= u <= 0x9EF
    ||| 0xA66 <= u <= 0xA6F
    ||| 0xAE6 <= u <= 0xAEF
    ||| 0xB66 <= u <= 0xB6F
    ||| 0xBE6 <= u <= 0xBEF
    ||| 0xC66 <= u <= 0xC6F
    ||| 0xCE6 <= u <= 0xCEF
    ||| 0xD66 <= u <= 0xD6F
    ||| 0xDE6 <= u <= 0xDEF
    ||| 0xE50 <= u <= 0xE59
    ||| 0xED0 <= u <= 0xED9
    ||| 0xF20 <= u <= 0xF29
    ||| 0x1040 <= u <= 0x1049
    ||| 0x1090 <= u <= 0x1099
    ||| 0x17E0 <= u <= 0x17E9
    ||| 0x1810 <= u <= 0x1819
    ||| 0x1946 <= u <= 0x194F
    ||| 0x19D0 <= u <= 0x19D9
    ||| 0x1A80 <= u <= 0x1A89
    ||| 0x1A90 <= u <= 0x1A99
    ||| 0x1B50 <= u <= 0x1B59
    ||| 0x1BB0 <= u <= 0x1BB9
    ||| 0x1C40 <= u <= 0x1C49
    ||| 0x1C50 <= u <= 0x1C59
    ||| 0xA620 <= u <= 0xA629
    ||| 0xA8D0 <= u <= 0xA8D9
    ||| 0xA900 <= u <= 0xA909
    ||| 0xA9D0 <= u <= 0xA9D9
    ||| 0xA9F0 <= u <= 0xA9F9
    ||| 0xAA50 <= u <= 0xAA59
    ||| 0xABF0 <= u <= 0xABF9
    ||| 0xFF10 <= u <= 0xFF19
    ||| 0x104A0 <= u <= 0x104A9
    ||| 0x10D30 <= u <= 0x10D39
    ||| 0x10D40 <= u <= 0x10D49
    ||| 0x11066 <= u <= 0x1106F
    ||| 0x110F0 <= u <= 0x110F9
    ||| 0x11136 <= u <= 0x1113F
    ||| 0x111D0 <= u <= 0x111D9
    ||| 0x112F0 <= u <= 0x112F9
    ||| 0x11450 <= u <= 0x11459
    ||| 0x114D0 <= u <= 0x114D9
    ||| 0x11650 <= u <= 0x11659
    ||| 0x116C0 <= u <= 0x116C9
    ||| 0x116D0 <= u <= 0x116E3
    ||| 0x11730 <= u <= 0x11739
    ||| 0x118E0 <= u <= 0x118E9
    ||| 0x11950 <= u <= 0x11959
    ||| 0x11BF0 <= u <= 0x11BF9
    ||| 0x11C50 <= u <= 0x11C59
    ||| 0x11D50 <= u <= 0x11D59
    ||| 0x11DA0 <= u <= 0x11DA9
    ||| 0x11F50 <= u <= 0x11F59
    ||| 0x16130 <= u <= 0x16139
    ||| 0x16A60 <= u <= 0x16A69
    ||| 0x16AC0 <= u <= 0x16AC9
    ||| 0x16B50 <= u <= 0x16B59
    ||| 0x16D70 <= u <= 0x16D79
    ||| 0x1CCF0 <= u <= 0x1CCF9
    ||| 0x1D7CE <= u <= 0x1D7FF
    ||| 0x1E140 <= u <= 0x1E149
    ||| 0x1E2F0 <= u <= 0x1E2F9
    ||| 0x1E4F0 <= u <= 0x1E4F9
    ||| 0x1E5F1 <= u <= 0x1E5FA
    ||| 0x1E950 <= u <= 0x1E959
    ||| 0x1FBF0 <= u <= 0x1FBF9
}

pub fn ascii_digit(c: char) -> (r: bool)
    ensures
        r == is_ascii_digit(c),
{
    '0' <= c && c <= '9'
}

pub fn ascii_alnum(c: char) -> (r: bool)
    ensures
        r == is_ascii_alnum(c),
{
    ('0' <= c && c <= '9') || ('A' <= c && c <= 'Z') || ('a' <= c && c <= 'z')
}

pub fn to_lower_char(c: char) -> (r: char)
    ensures
        r == lower_char(c),
{
    if 'A' <= c && c <= 'Z' {
        let u: u32 = (c as u32) + 32;
        assert(0x61 <= u <= 0x7A);
        char_from_ascii_code(u)
    } else {
        c
    }
}

/// The character whose code is the (ASCII) value `u`.
fn char_from_ascii_code(u: u32) -> (r: char)
    requires
        u < 0x80,
    ensures
        r == u as char,
        r as u32 == u,
{
    let b: u8 = u as u8;
    b as char
}

pub fn white_space(c: char) -> (r: bool)
    ensures
        r == is_white_space(c),
{
    let u: u32 = c as u32;
    (0x09 <= u && u <= 0x0D) || u == 0x20 || u == 0x85 || u == 0xA0 || u == 0x1680 || (0x2000
        <= u && u <= 0x200A) || u == 0x2028 || u == 0x2029 || u == 0x202F || u == 0x205F || u
        == 0x3000
}

pub fn control(c: char) -> (r: bool)
    ensures
        r == is_control(c),
{
    let u: u32 = c as u32;
    u <= 0x1F || (0x7F <= u && u <= 0x9F)
}

pub fn decimal_digit(c: char) -> (r: bool)
    ensures
        r == is_decimal_digit(c),
{
    let u: u32 = c as u32;
    if u < 0x80 {
        return 0x30 <= u && u <= 0x39;
    }
    (0x660 <= u && u <= 0x669) || (0x6F0 <= u && u <= 0x6F9) || (0x7C0 <= u && u <= 0x7C9) || (
    0x966 <= u && u <= 0x96F) || (0x9E6 <= u && u <= 0x9EF) || (0xA66 <= u && u <= 0xA6F) || (
    0xAE6 <= u && u <= 0xAEF) || (0xB66 <= u && u <= 0xB6F) || (0xBE6 <= u && u <= 0xBEF) || (
    0xC66 <= u && u <= 0xC6F) || (0xCE6 <= u && u <= 0xCEF) || (0xD66 <= u && u <= 0xD6F) || (
    0xDE6 <= u && u <= 0xDEF) || (0xE50 <= u && u <= 0xE59) || (0xED0 <= u && u <= 0xED9) || (
    0xF20 <= u && u <= 0xF29) || (0x1040 <= u && u <= 0x1049) || (0x1090 <= u && u <= 0x1099)
        || (0x17E0 <= u && u <= 0x17E9) || (0x1810 <= u && u <= 0x1819) || (0x1946 <= u && u
        <= 0x194F) || (0x19D0 <= u && u <= 0x19D9) || (0x1A80 <= u && u <= 0x1A89) || (0x1A90
        <= u && u <= 0x1A99) || (0x1B50 <= u && u <= 0x1B59) || (0x1BB0 <= u && u <= 0x1BB9) || (
    0x1C40 <= u && u <= 0x1C49) || (0x1C50 <= u && u <= 0x1C59) || (0xA620 <= u && u <= 0xA629)
        || (0xA8D0 <= u && u <= 0xA8D9) || (0xA900 <= u && u <= 0xA909) || (0xA9D0 <= u && u
        <= 0xA9D9) || (0xA9F0 <= u && u <= 0xA9F9) || (0xAA50 <= u && u <= 0xAA59) || (0xABF0
        <= u && u <= 0xABF9) || (0xFF10 <= u && u <= 0xFF19) || (0x104A0 <= u && u <= 0x104A9)
        || (0x10D30 <= u && u <= 0x10D39) || (0x10D40 <= u && u <= 0x10D49) || (0x11066 <= u
        && u <= 0x1106F) || (0x110F0 <= u && u <= 0x110F9) || (0x11136 <= u && u <= 0x1113F)
        || (0x111D0 <= u && u <= 0x111D9) || (0x112F0 <= u && u <= 0x112F9) || (0x11450 <= u
        && u <= 0x11459) || (0x114D0 <= u && u <= 0x114D9) || (0x11650 <= u && u <= 0x11659)
        || (0x116C0 <= u && u <= 0x116C9) || (0x116D0 <= u && u <= 0x116E3) || (0x11730 <= u
        && u <= 0x11739) || (0x118E0 <= u && u <= 0x118E9) || (0x11950 <= u && u <= 0x11959)
        || (0x11BF0 <= u && u <= 0x11BF9) || (0x11C50 <= u && u <= 0x11C59) || (0x11D50 <= u
        && u <= 0x11D59) || (0x11DA0 <= u && u <= 0x11DA9) || (0x11F50 <= u && u <= 0x11F59)
        || (0x16130 <= u && u <= 0x16139) || (0x16A60 <= u && u <= 0x16A69) || (0x16AC0 <= u
        && u <= 0x16AC9) || (0x16B50 <= u && u <= 0x16B59) || (0x16D70 <= u && u <= 0x16D79)
        || (0x1CCF0 <= u && u <= 0x1CCF9) || (0x1D7CE <= u && u <= 0x1D7FF) || (0x1E140 <= u
        && u <= 0x1E149) || (0x1E2F0 <= u && u <= 0x1E2F9) || (0x1E4F0 <= u && u <= 0x1E4F9)
        || (0x1E5F1 <= u && u <= 0x1E5FA) || (0x1E950 <= u && u <= 0x1E959) || (0x1FBF0 <= u
        && u <= 0x1FBF9)
}

// ---------------------------------------------------------------------------
// Conversions between `str`/`String` and character vectors
// ---------------------------------------------------------------------------

/// The characters of `s`, in order.
pub fn chars_of(s: &str) -> (r: Vec<char>)
    ensures
        r@ == s@,
{
    let mut out: Vec<char> = Vec::new();
    for c in it: s.chars()
        invariant
            out@ == it.seq().take(it.index() as int),
    {
        out.push(c);
    }
    out
}

/// Appends one character to a `String` (`String::push`).
#[verifier::external_body]
fn push_char(s: &mut String, c: char)
    ensures
        final(s)@ == old(s)@.push(c),
{
    s.push(c);
}

/// The string made of the characters of `v`, in order.
pub fn string_of(v: &Vec<char>) -> (s: String)
    ensures
        s@ == v@,
{
    let mut s = String::new();
    let mut i: usize = 0;
    while i < v.len()
        invariant
            i <= v.len(),
            s@ == v@.take(i as int),
        decreases v.len() - i,
    {
        push_char(&mut s, v[i]);
        i = i + 1;
        assert(v@.take(i as int) == v@.take(i - 1).push(v@[i - 1]));
    }
    assert(v@.take(v.len() as int) == v@);
    s
}

/// The characters of a string literal or string slice, as a vector.
pub fn lit(s: &str) -> (r: Vec<char>)
    ensures
        r@ == s@,
{
    chars_of(s)
}

pub fn copy_chars(v: &Vec<char>) -> (r: Vec<char>)
    ensures
        r@ == v@,
{
    let mut out: Vec<char> = Vec::new();
    let mut i: usize = 0;
    while i < v.len()
        invariant
            i <= v.len(),
            out@ == v@.take(i as int),
        decreases v.len() - i,
    {
        out.push(v[i]);
        i = i + 1;
        assert(v@.take(i as int) == v@.take(i - 1).push(v@[i - 1]));
    }
    assert(v@.take(v.len() as int) == v@);
    out
}

pub fn chars_eq(a: &Vec<char>, b: &Vec<char>) -> (r: bool)
    ensures
        r == (a@ == b@),
{
    if a.len() != b.len() {
        return false;
    }
    let mut i: usize = 0;
    while i < a.len()
        invariant
            a.len() == b.len(),
            i <= a.len(),
            forall|j: int| 0 <= j < i ==> a@[j] == b@[j],
        decreases a.len() - i,
    {
        if a[i] != b[i] {
            return false;
        }
        i = i + 1;
    }
    assert(a@ =~= b@);
    true
}

/// `a < b` in the order of `str` (lexicographic on characters, which is the
/// byte order of their UTF-8 encodings).
pub open spec fn lex_lt(a: Seq<char>, b: Seq<char>) -> bool
    decreases a.len(),
{
    if b.len() == 0 {
        false
    } else if a.len() == 0 {
        true
    } else if a[0] != b[0] {
        (a[0] as u32) < (b[0] as u32)
    } else {
        lex_lt(a.drop_first(), b.drop_first())
    }
}

pub fn chars_lt(a: &Vec<char>, b: &Vec<char>) -> (r: bool)
    ensures
        r == lex_lt(a@, b@),
{
    let mut i: usize = 0;
    assert(a@.skip(0) =~= a@);
    assert(b@.skip(0) =~= b@);
    while i < a.len() && i < b.len()
        invariant
            i <= a.len(),
            i <= b.len(),
            forall|j: int| 0 <= j < i ==> a@[j] == b@[j],
            lex_lt(a@, b@) == lex_lt(a@.skip(i as int), b@.skip(i as int)),
        decreases a.len() - i,
    {
        if a[i] != b[i] {
            proof {
                assert(a@.skip(i as int)[0] == a@[i as int]);
                assert(b@.skip(i as int)[0] == b@[i as int]);
            }
            return (a[i] as u32) < (b[i] as u32);
        }
        proof {
            assert(a@.skip(i as int).drop_first() =~= a@.skip(i + 1));
            assert(b@.skip(i as int).drop_first() =~= b@.skip(i + 1));
        }
        i = i + 1;
    }
    i == a.len() && i < b.len()
}

// ---------------------------------------------------------------------------
// Lower-casing
// ---------------------------------------------------------------------------

pub open spec fn lower(s: Seq<char>) -> Seq<char> {
    s.map_values(|c: char| lower_char(c))
}

pub fn to_lower(s: &Vec<char>) -> (r: Vec<char>)
    ensures
        r@ == lower(s@),
{
    let mut out: Vec<char> = Vec::new();
    let mut i: usize = 0;
    while i < s.len()
        invariant
            i <= s.len(),
            out@ == lower(s@.take(i as int)),
        decreases s.len() - i,
    {
        out.push(to_lower_char(s[i]));
        i = i + 1;
        assert(lower(s@.take(i as int)) =~= lower(s@.take(i - 1)).push(lower_char(s@[i - 1])));
    }
    assert(s@.take(s.len() as int) == s@);
    out
}

// ---------------------------------------------------------------------------
// Sub-sequences: prefixes, suffixes, occurrences
// ---------------------------------------------------------------------------

pub open spec fn has_prefix(s: Seq<char>, p: Seq<char>) -> bool {
    p.len() <= s.len() && s.take(p.len() as int) == p
}

pub open spec fn has_suffix(s: Seq<char>, p: Seq<char>) -> bool {
    p.len() <= s.len() && s.skip(s.len() - p.len()) == p
}

/// `p` occurs in `s` starting at index `i`.
pub open spec fn occurs_at(s: Seq<char>, p: Seq<char>, i: int) -> bool {
    0 <= i && i + p.len() <= s.len() && s.subrange(i, i + p.len()) == p
}

pub open spec fn contains(s: Seq<char>, p: Seq<char>) -> bool {
    exists|i: int| occurs_at(s, p, i)
}

pub fn starts_with(s: &Vec<char>, p: &Vec<char>) -> (r: bool)
    ensures
        r == has_prefix(s@, p@),
{
    if p.len() > s.len() {
        return false;
    }
    matches_at(s, p, 0)
}

pub fn ends_with(s: &Vec<char>, p: &Vec<char>) -> (r: bool)
    ensures
        r == has_suffix(s@, p@),
{
    if p.len() > s.len() {
        return false;
    }
    let r = matches_at(s, p, s.len() - p.len());
    assert(s@.subrange(s.len() - p.len(), s.len() as int) =~= s@.skip(s.len() - p.len()));
    r
}

/// Whether `p` occurs in `s` at index `i`.
pub fn matches_at(s: &Vec<char>, p: &Vec<char>, i: usize) -> (r: bool)
    ensures
        r == occurs_at(s@, p@, i as int),
{
    if i > s.len() || p.len() > s.len() - i {
        return false;
    }
    let mut j: usize = 0;
    while j < p.len()
        invariant
            i + p.len() <= s.len(),
            j <= p.len(),
            forall|k: int| 0 <= k < j ==> s@[i + k] == p@[k],
        decreases p.len() - j,
    {
        if s[i + j] != p[j] {
            assert(s@.subrange(i as int, i + p.len())[j as int] != p@[j as int]);
            return false;
        }
        j = j + 1;
    }
    assert(s@.subrange(i as int, i + p.len()) =~= p@);
    true
}

/// The first index at which `p` occurs in `s`.
pub fn find(s: &Vec<char>, p: &Vec<char>) -> (r: Option<usize>)
    ensures
        match r {
            Some(i) => occurs_at(s@, p@, i as int) && forall|j: int|
                0 <= j < i ==> !occurs_at(s@, p@, j),
            None => !contains(s@, p@),
        },
{
    if p.len() > s.len() {
        return None;
    }
    if p.len() == 0 {
        assert(s@.subrange(0, 0) =~= p@);
        assert(occurs_at(s@, p@, 0));
        return Some(0);
    }
    let mut i: usize = 0;
    while i <= s.len() - p.len()
        invariant
            1 <= p.len() <= s.len(),
            i <= s.len() - p.len() + 1,
            forall|j: int| 0 <= j < i ==> !occurs_at(s@, p@, j),
        decreases s.len() - p.len() + 1 - i,
    {
        if matches_at(s, p, i) {
            return Some(i);
        }
        i = i + 1;
    }
    None
}

pub fn contains_chars(s: &Vec<char>, p: &Vec<char>) -> (r: bool)
    ensures
        r == contains(s@, p@),
{
    find(s, p).is_some()
}

pub open spec fn has_char(s: Seq<char>, c: char) -> bool {
    exists|i: int| 0 <= i < s.len() && s[i] == c
}

pub fn contains_char(s: &Vec<char>, c: char) -> (r: bool)
    ensures
        r == has_char(s@, c),
{
    let mut i: usize = 0;
    while i < s.len()
        invariant
            i <= s.len(),
            forall|j: int| 0 <= j < i ==> s@[j] != c,
        decreases s.len() - i,
    {
        if s[i] == c {
            return true;
        }
        i = i + 1;
    }
    false
}

/// The sub-vector `s[lo..hi]`.
pub fn slice(s: &Vec<char>, lo: usize, hi: usize) -> (r: Vec<char>)
    requires
        lo <= hi <= s.len(),
    ensures
        r@ == s@.subrange(lo as int, hi as int),
{
    let mut out: Vec<char> = Vec::new();
    let mut i: usize = lo;
    while i < hi
        invariant
            lo <= i <= hi <= s.len(),
            out@ == s@.subrange(lo as int, i as int),
        decreases hi - i,
    {
        out.push(s[i]);
        i = i + 1;
        assert(s@.subrange(lo as int, i as int) =~= s@.subrange(lo as int, i - 1).push(
            s@[i - 1],
        ));
    }
    out
}

/// `a` followed by `b`.
pub fn concat(a: &Vec<char>, b: &Vec<char>) -> (r: Vec<char>)
    ensures
        r@ == a@ + b@,
{
    let mut out = copy_chars(a);
    let mut i: usize = 0;
    while i < b.len()
        invariant
            i <= b.len(),
            out@ == a@ + b@.take(i as int),
        decreases b.len() - i,
    {
        out.push(b[i]);
        i = i + 1;
        assert(a@ + b@.take(i as int) =~= (a@ + b@.take(i - 1)).push(b@[i - 1]));
    }
    assert(b@.take(b.len() as int) == b@);
    out
}

/// Appends `b` to `a`.
pub fn append_chars(a: &mut Vec<char>, b: &Vec<char>)
    ensures
        final(a)@ == old(a)@ + b@,
{
    let mut i: usize = 0;
    while i < b.len()
        invariant
            i <= b.len(),
            a@ == old(a)@ + b@.take(i as int),
        decreases b.len() - i,
    {
        a.push(b[i]);
        i = i + 1;
        assert(old(a)@ + b@.take(i as int) =~= (old(a)@ + b@.take(i - 1)).push(b@[i - 1]));
    }
    assert(b@.take(b.len() as int) == b@);
}

// ---------------------------------------------------------------------------
// Trimming
// ---------------------------------------------------------------------------

/// The sets of characters that the library trims.
#[derive(Clone, Copy)]
pub enum TrimSet {
    /// Unicode white space (`str::trim`).
    WhiteSpace,
    /// `'.'` only.
    Dots,
    /// `'-'`, `'.'` and `'_'`.
    DashDotUnderscore,
    /// `'n'` only.
    LetterN,
}

pub open spec fn in_set(k: TrimSet, c: char) -> bool {
    match k {
        TrimSet::WhiteSpace => is_white_space(c),
        TrimSet::Dots => c == '.',
        TrimSet::DashDotUnderscore => c == '-' || c == '.' || c == '_',
        TrimSet::LetterN => c == 'n',
    }
}

pub fn in_set_exec(k: TrimSet, c: char) -> (r: bool)
    ensures
        r == in_set(k, c),
{
    match k {
        TrimSet::WhiteSpace => white_space(c),
        TrimSet::Dots => c == '.',
        TrimSet::DashDotUnderscore => c == '-' || c == '.' || c == '_',
        TrimSet::LetterN => c == 'n',
    }
}

/// `s` without its leading characters of set `k`.
pub open spec fn trim_start(s: Seq<char>, k: TrimSet) -> Seq<char>
    decreases s.len(),
{
    if s.len() > 0 && in_set(k, s[0]) {
        trim_start(s.drop_first(), k)
    } else {
        s
    }
}

/// `s` without its trailing characters of set `k`.
pub open spec fn trim_end(s: Seq<char>, k: TrimSet) -> Seq<char>
    decreases s.len(),
{
    if s.len() > 0 && in_set(k, s.last()) {
        trim_end(s.drop_last(), k)
    } else {
        s
    }
}

/// `s` without its leading and trailing characters of set `k`.
pub open spec fn trim(s: Seq<char>, k: TrimSet) -> Seq<char> {
    trim_end(trim_start(s, k), k)
}

pub proof fn lemma_trim_start_skip(s: Seq<char>, k: TrimSet, i: int)
    requires
        0 <= i <= s.len(),
        forall|j: int| 0 <= j < i ==> in_set(k, s[j]),
    ensures
        trim_start(s, k) == trim_start(s.skip(i), k),
    decreases i,
{
    if i > 0 {
        assert(s.drop_first().skip(i - 1) =~= s.skip(i));
        lemma_trim_start_skip(s.drop_first(), k, i - 1);
    } else {
        assert(s.skip(0) =~= s);
    }
}

pub proof fn lemma_trim_end_take(s: Seq<char>, k: TrimSet, i: int)
    requires
        0 <= i <= s.len(),
        forall|j: int| i <= j < s.len() ==> in_set(k, s[j]),
    ensures
        trim_end(s, k) == trim_end(s.take(i), k),
    decreases s.len() - i,
{
    if i < s.len() {
        assert(s.drop_last().take(i) =~= s.take(i));
        lemma_trim_end_take(s.drop_last(), k, i);
    } else {
        assert(s.take(i) =~= s);
    }
}

pub fn trim_chars(s: &Vec<char>, k: TrimSet) -> (r: Vec<char>)
    ensures
        r@ == trim(s@, k),
{
    let mut lo: usize = 0;
    while lo < s.len() && in_set_exec(k, s[lo])
        invariant
            lo <= s.len(),
            forall|j: int| 0 <= j < lo ==> in_set(k, s@[j]),
        decreases s.len() - lo,
    {
        lo = lo + 1;
    }
    proof {
        lemma_trim_start_skip(s@, k, lo as int);
    }
    let mut hi: usize = s.len();
    while hi > lo && in_set_exec(k, s[hi - 1])
        invariant
            lo <= hi <= s.len(),
            forall|j: int| hi <= j < s.len() ==> in_set(k, s@[j]),
        decreases hi,
    {
        hi = hi - 1;
    }
    let r = slice(s, lo, hi);
    proof {
        let t = s@.skip(lo as int);
        assert(trim_start(t, k) == t);
        assert(r@ =~= t.take(hi - lo));
        lemma_trim_end_take(t, k, hi - lo);
        assert(trim_end(t.take(hi - lo), k) == t.take(hi - lo));
    }
    r
}

pub fn trim_start_chars(s: &Vec<char>, k: TrimSet) -> (r: Vec<char>)
    ensures
        r@ == trim_start(s@, k),
{
    let mut lo: usize = 0;
    while lo < s.len() && in_set_exec(k, s[lo])
        invariant
            lo <= s.len(),
            forall|j: int| 0 <= j < lo ==> in_set(k, s@[j]),
        decreases s.len() - lo,
    {
        lo = lo + 1;
    }
    proof {
        lemma_trim_start_skip(s@, k, lo as int);
        assert(s@.subrange(lo as int, s.len() as int) =~= s@.skip(lo as int));
    }
    slice(s, lo, s.len())
}

/// The trimmed characters of a string slice (`str::trim`).
pub fn trimmed(s: &str) -> (r: Vec<char>)
    ensures
        r@ == trim(s@, TrimSet::WhiteSpace),
{
    let v = chars_of(s);
    trim_chars(&v, TrimSet::WhiteSpace)
}

// ---------------------------------------------------------------------------
// Words (`str::split_whitespace`) and joining
// ---------------------------------------------------------------------------

/// The character sequences held by a vector of character vectors.
pub open spec fn views(v: Seq<Vec<char>>) -> Seq<Seq<char>> {
    v.map_values(|w: Vec<char>| w@)
}

/// Left-to-right scan state of `split_whitespace`: the finished words and the
/// word being read.
pub open spec fn words_scan(s: Seq<char>) -> (Seq<Seq<char>>, Seq<char>)
    decreases s.len(),
{
    if s.len() == 0 {
        (Seq::empty(), Seq::empty())
    } else {
        let (done, cur) = words_scan(s.drop_last());
        let c = s.last();
        if is_white_space(c) {
            if cur.len() > 0 {
                (done.push(cur), Seq::empty())
            } else {
                (done, cur)
            }
        } else {
            (done, cur.push(c))
        }
    }
}

/// The maximal runs of non-white-space characters of `s`, in order.
pub open spec fn words(s: Seq<char>) -> Seq<Seq<char>> {
    let (done, cur) = words_scan(s);
    if cur.len() > 0 {
        done.push(cur)
    } else {
        done
    }
}

/// The items of `v` separated by `sep`.
pub open spec fn join(v: Seq<Seq<char>>, sep: Seq<char>) -> Seq<char>
    decreases v.len(),
{
    if v.len() == 0 {
        Seq::empty()
    } else if v.len() == 1 {
        v[0]
    } else {
        join(v.drop_last(), sep) + sep + v.last()
    }
}

pub open spec fn space() -> Seq<char> {
    seq![' ']
}

/// The words of `s` separated by single spaces.
pub open spec fn collapse(s: Seq<char>) -> Seq<char> {
    join(words(s), space())
}

pub open spec fn word_ok(w: Seq<char>) -> bool {
    forall|j: int| 0 <= j < w.len() ==> !is_white_space(#[trigger] w[j])
}

pub proof fn lemma_words_scan_cur(s: Seq<char>)
    ensures
        word_ok(words_scan(s).1),
        forall|i: int| 0 <= i < words_scan(s).0.len() ==> word_ok(#[trigger] words_scan(s).0[i]),
        forall|i: int| 0 <= i < words_scan(s).0.len() ==> #[trigger] words_scan(s).0[i].len() > 0,
    decreases s.len(),
{
    if s.len() > 0 {
        lemma_words_scan_cur(s.drop_last());
        let (done, cur) = words_scan(s.drop_last());
        let c = s.last();
        if !is_white_space(c) {
            assert forall|j: int| 0 <= j < cur.push(c).len() implies !is_white_space(
                #[trigger] cur.push(c)[j],
            ) by {
                if j < cur.len() {
                    assert(cur.push(c)[j] == cur[j]);
                }
            }
        } else if cur.len() > 0 {
            assert forall|i: int| 0 <= i < done.push(cur).len() implies word_ok(
                #[trigger] done.push(cur)[i],
            ) by {
                if i < done.len() {
                    assert(done.push(cur)[i] == done[i]);
                }
            }
        }
    }
}

/// Every word is non-empty and free of white space.
pub proof fn lemma_words_shape(s: Seq<char>)
    ensures
        forall|i: int| 0 <= i < words(s).len() ==> #[trigger] words(s)[i].len() > 0,
        forall|i: int| 0 <= i < words(s).len() ==> word_ok(#[trigger] words(s)[i]),
{
    lemma_words_scan_cur(s);
    let (done, cur) = words_scan(s);
    if cur.len() > 0 {
        assert forall|i: int| 0 <= i < words(s).len() implies word_ok(#[trigger] words(s)[i])
            && words(s)[i].len() > 0 by {
            if i < done.len() {
                assert(words(s)[i] == done[i]);
            }
        }
    }
}

pub fn split_whitespace(s: &Vec<char>) -> (r: Vec<Vec<char>>)
    ensures
        views(r@) == words(s@),
{
    let mut done: Vec<Vec<char>> = Vec::new();
    let mut cur: Vec<char> = Vec::new();
    let mut i: usize = 0;
    while i < s.len()
        invariant
            i <= s.len(),
            (views(done@), cur@) == words_scan(s@.take(i as int)),
        decreases s.len() - i,
    {
        let c = s[i];
        assert(s@.take(i + 1).drop_last() =~= s@.take(i as int));
        if white_space(c) {
            if cur.len() > 0 {
                let w = cur;
                let ghost wv = w@;
                let ghost before = views(done@);
                done.push(w);
                assert(views(done@) =~= words_scan(s@.take(i as int)).0.push(wv));
                cur = Vec::new();
            }
        } else {
            cur.push(c);
        }
        i = i + 1;
    }
    assert(s@.take(s.len() as int) =~= s@);
    if cur.len() > 0 {
        let ghost cv = cur@;
        let ghost before = views(done@);
        done.push(cur);
        assert(views(done@) =~= before.push(cv));
    }
    done
}

pub fn join_chars(v: &Vec<Vec<char>>, sep: &Vec<char>) -> (r: Vec<char>)
    ensures
        r@ == join(views(v@), sep@),
{
    let mut out: Vec<char> = Vec::new();
    let mut i: usize = 0;
    while i < v.len()
        invariant
            i <= v.len(),
            out@ == join(views(v@).take(i as int), sep@),
        decreases v.len() - i,
    {
        let ghost prev = views(v@).take(i as int);
        assert(views(v@).take(i + 1).drop_last() =~= prev);
        if i > 0 {
            append_chars(&mut out, sep);
        } else {
            assert(views(v@).take(1) =~= seq![views(v@)[0]]);
        }
        append_chars(&mut out, &v[i]);
        i = i + 1;
    }
    assert(views(v@).take(v.len() as int) =~= views(v@));
    out
}

/// The words of `s` separated by single spaces
/// (`s.split_whitespace().collect::<Vec<_>>().join(" ")`).
pub fn collapse_whitespace(s: &Vec<char>) -> (r: Vec<char>)
    ensures
        r@ == collapse(s@),
{
    let ws = split_whitespace(s);
    let sp: Vec<char> = vec![' '];
    assert(sp@ =~= space());
    join_chars(&ws, &sp)
}

// ---------------------------------------------------------------------------
// Splitting on a single character (`str::split`)
// ---------------------------------------------------------------------------

/// Left-to-right scan state of `split(sep)`.
pub open spec fn split_scan(s: Seq<char>, sep: char) -> (Seq<Seq<char>>, Seq<char>)
    decreases s.len(),
{
    if s.len() == 0 {
        (Seq::empty(), Seq::empty())
    } else {
        let (done, cur) = split_scan(s.drop_last(), sep);
        if s.last() == sep {
            (done.push(cur), Seq::empty())
        } else {
            (done, cur.push(s.last()))
        }
    }
}

/// The pieces of `s` between occurrences of `sep` (there is always at least
/// one, possibly empty).
pub open spec fn split_on(s: Seq<char>, sep: char) -> Seq<Seq<char>> {
    let (done, cur) = split_scan(s, sep);
    done.push(cur)
}

pub fn split_char(s: &Vec<char>, sep: char) -> (r: Vec<Vec<char>>)
    ensures
        views(r@) == split_on(s@, sep),
{
    let mut done: Vec<Vec<char>> = Vec::new();
    let mut cur: Vec<char> = Vec::new();
    let mut i: usize = 0;
    while i < s.len()
        invariant
            i <= s.len(),
            (views(done@), cur@) == split_scan(s@.take(i as int), sep),
        decreases s.len() - i,
    {
        let c = s[i];
        assert(s@.take(i + 1).drop_last() =~= s@.take(i as int));
        if c == sep {
            let w = cur;
            let ghost wv = w@;
            let ghost before = views(done@);
            done.push(w);
            assert(views(done@) =~= before.push(wv));
            cur = Vec::new();
        } else {
            cur.push(c);
        }
        i = i + 1;
    }
    assert(s@.take(s.len() as int) =~= s@);
    let ghost cv = cur@;
    let ghost before = views(done@);
    done.push(cur);
    assert(views(done@) =~= before.push(cv));
    done
}

/// A character occurs in a concatenation exactly when it occurs in a part.
pub proof fn lemma_has_char_concat(a: Seq<char>, b: Seq<char>, c: char)
    ensures
        has_char(a + b, c) == (has_char(a, c) || has_char(b, c)),
{
    if has_char(a + b, c) {
        let i = choose|i: int| 0 <= i < (a + b).len() && (a + b)[i] == c;
        if i >= a.len() {
            assert(b[i - a.len()] == c);
        }
    }
    if has_char(a, c) {
        let i = choose|i: int| 0 <= i < a.len() && a[i] == c;
        assert((a + b)[i] == c);
    }
    if has_char(b, c) {
        let i = choose|i: int| 0 <= i < b.len() && b[i] == c;
        assert((a + b)[a.len() + i] == c);
    }
}

/// Text without `sep` continues the piece being read.
pub proof fn lemma_split_scan_append(s: Seq<char>, t: Seq<char>, sep: char)
    requires
        !has_char(t, sep),
    ensures
        split_scan(s + t, sep) == (split_scan(s, sep).0, split_scan(s, sep).1 + t),
    decreases t.len(),
{
    if t.len() == 0 {
        assert(s + t =~= s);
        assert(split_scan(s, sep).1 + t =~= split_scan(s, sep).1);
    } else {
        assert((s + t).drop_last() =~= s + t.drop_last());
        assert(!has_char(t.drop_last(), sep)) by {
            if has_char(t.drop_last(), sep) {
                let i = choose|i: int| 0 <= i < t.drop_last().len() && t.drop_last()[i] == sep;
                assert(t[i] == sep);
            }
        }
        lemma_split_scan_append(s, t.drop_last(), sep);
        assert(t.last() != sep) by {
            assert(t[t.len() - 1] == t.last());
        }
        assert(split_scan(s, sep).1 + t.drop_last() + seq![t.last()] =~= split_scan(s, sep).1 + t);
        assert((s + t).last() == t.last());
    }
}

/// A separator ends the piece being read.
pub proof fn lemma_split_scan_sep(s: Seq<char>, sep: char)
    ensures
        split_scan(s.push(sep), sep) == (
            split_scan(s, sep).0.push(split_scan(s, sep).1),
            Seq::<char>::empty(),
        ),
{
    assert(s.push(sep).drop_last() =~= s);
}

/// No piece of `split_on(s, sep)` holds `sep`.
pub proof fn lemma_split_pieces(s: Seq<char>, sep: char)
    ensures
        forall|i: int| 0 <= i < split_scan(s, sep).0.len() ==> !has_char(#[trigger] split_scan(s, sep).0[i], sep),
        !has_char(split_scan(s, sep).1, sep),
        forall|i: int| 0 <= i < split_on(s, sep).len() ==> !has_char(#[trigger] split_on(s, sep)[i], sep),
    decreases s.len(),
{
    lemma_split_scan_last(s, sep);
    if s.len() > 0 {
        lemma_split_pieces(s.drop_last(), sep);
        let (d, c) = split_scan(s.drop_last(), sep);
        if s.last() == sep {
            assert forall|i: int| 0 <= i < d.push(c).len() implies !has_char(#[trigger] d.push(c)[i], sep) by {
                if i < d.len() {
                    assert(d.push(c)[i] == d[i]);
                }
            }
        }
    }
    let (d, c) = split_scan(s, sep);
    assert forall|i: int| 0 <= i < d.push(c).len() implies !has_char(#[trigger] d.push(c)[i], sep) by {
        if i < d.len() {
            assert(d.push(c)[i] == d[i]);
        }
    }
}

/// The text before the first occurrence of `sep` (the whole text if there is
/// none): `s.split(sep).next()`.
pub open spec fn before_char(s: Seq<char>, sep: char) -> Seq<char> {
    split_on(s, sep)[0]
}

pub proof fn lemma_split_scan_first(s: Seq<char>, sep: char)
    ensures
        split_scan(s, sep).0.len() == 0 ==> !has_char(s, sep) && split_scan(s, sep).1 == s,
        split_scan(s, sep).0.len() > 0 ==> (exists|i: int|
            0 <= i < s.len() && s[i] == sep && split_scan(s, sep).0[0] == s.take(i) && !has_char(
                s.take(i),
                sep,
            )),
    decreases s.len(),
{
    if s.len() > 0 {
        lemma_split_scan_first(s.drop_last(), sep);
        let p = s.drop_last();
        if split_scan(p, sep).0.len() > 0 {
            let i = choose|i: int|
                0 <= i < p.len() && p[i] == sep && split_scan(p, sep).0[0] == p.take(i)
                    && !has_char(p.take(i), sep);
            assert(s[i] == sep);
            assert(s.take(i) =~= p.take(i));
        } else {
            if s.last() == sep {
                let i = s.len() - 1;
                assert(s.take(i) =~= p);
            } else {
                assert(split_scan(s, sep).1 =~= s);
                assert forall|j: int| 0 <= j < s.len() implies s[j] != sep by {
                    if j < p.len() {
                        assert(p[j] == s[j]);
                    }
                }
            }
        }
    } else {
        assert(split_scan(s, sep).1 =~= s);
    }
}

/// `before_char` is the longest prefix free of `sep`.
pub proof fn lemma_before_char(s: Seq<char>, sep: char)
    ensures
        has_prefix(s, before_char(s, sep)),
        !has_char(before_char(s, sep), sep),
        before_char(s, sep).len() < s.len() ==> s[before_char(s, sep).len() as int] == sep,
{
    lemma_split_scan_first(s, sep);
    if split_scan(s, sep).0.len() > 0 {
        let i = choose|i: int|
            0 <= i < s.len() && s[i] == sep && split_scan(s, sep).0[0] == s.take(i) && !has_char(
                s.take(i),
                sep,
            );
        assert(before_char(s, sep) == s.take(i));
        assert(s.take(i).len() == i);
        assert(s.take(i).take(i) =~= s.take(i));
    } else {
        assert(s.take(s.len() as int) =~= s);
        assert(before_char(s, sep) == s);
    }
}

pub fn before_char_exec(s: &Vec<char>, sep: char) -> (r: Vec<char>)
    ensures
        r@ == before_char(s@, sep),
{
    let mut i: usize = 0;
    while i < s.len() && s[i] != sep
        invariant
            i <= s.len(),
            forall|j: int| 0 <= j < i ==> s@[j] != sep,
        decreases s.len() - i,
    {
        i = i + 1;
    }
    let r = slice(s, 0, i);
    proof {
        lemma_before_char(s@, sep);
        let b = before_char(s@, sep);
        assert(r@ =~= s@.take(i as int));
        if b.len() < i {
            assert(s@[b.len() as int] == sep);
        } else if b.len() > i {
            assert(b[i as int] == s@[i as int]);
            assert(s@[i as int] == sep);
        }
        assert(b =~= s@.take(b.len() as int));
    }
    r
}

/// The text after the last occurrence of `sep` (the whole text if there is
/// none): `s.rsplit(sep).next()`.
pub open spec fn after_last_char(s: Seq<char>, sep: char) -> Seq<char> {
    split_on(s, sep).last()
}

pub proof fn lemma_split_scan_last(s: Seq<char>, sep: char)
    ensures
        !has_char(split_scan(s, sep).1, sep),
        has_suffix(s, split_scan(s, sep).1),
        split_scan(s, sep).1.len() < s.len() ==> s[s.len() - split_scan(s, sep).1.len() - 1]
            == sep,
    decreases s.len(),
{
    if s.len() > 0 {
        lemma_split_scan_last(s.drop_last(), sep);
        let p = s.drop_last();
        let cur = split_scan(p, sep).1;
        if s.last() != sep {
            assert(p.skip(p.len() - cur.len()) == cur);
            assert forall|j: int| 0 <= j < cur.len() implies #[trigger] s[s.len() - cur.len() - 1
                + j] == cur[j] by {
                assert(p.skip(p.len() - cur.len())[j] == p[p.len() - cur.len() + j]);
            }
            assert(s.skip(s.len() - cur.len() - 1) =~= cur.push(s.last()));
            assert(split_scan(s, sep).1 == cur.push(s.last()));
            assert(has_suffix(s, cur.push(s.last())));
            assert forall|j: int| 0 <= j < cur.len() + 1 implies cur.push(s.last())[j] != sep by {
                if j < cur.len() {
                    assert(!has_char(cur, sep));
                    assert(cur[j] != sep);
                }
            }
            if cur.len() + 1 < s.len() {
                assert(p[p.len() - cur.len() - 1] == sep);
            }
        } else {
            assert(s.skip(s.len() as int) =~= Seq::<char>::empty());
            assert(split_scan(s, sep).1 == Seq::<char>::empty());
            assert(has_suffix(s, Seq::<char>::empty()));
        }
    } else {
        assert(s.skip(0) =~= Seq::<char>::empty());
        assert(has_suffix(s, split_scan(s, sep).1));
    }
}

pub fn after_last_char_exec(s: &Vec<char>, sep: char) -> (r: Vec<char>)
    ensures
        r@ == after_last_char(s@, sep),
{
    let mut i: usize = s.len();
    while i > 0 && s[i - 1] != sep
        invariant
            i <= s.len(),
            forall|j: int| i <= j < s.len() ==> s@[j] != sep,
        decreases i,
    {
        i = i - 1;
    }
    let r = slice(s, i, s.len());
    proof {
        lemma_split_scan_last(s@, sep);
        let t = split_scan(s@, sep).1;
        assert(after_last_char(s@, sep) == t);
        assert(r@ =~= s@.skip(i as int));
        let a = s.len() - t.len();
        if a < i {
            assert(s@[i - 1] == sep);
            assert(t[i - 1 - a] == s@[i - 1]);
        } else if a > i {
            assert(s@[a - 1] == sep);
        }
        assert(t =~= s@.skip(a));
    }
    r
}

// ---------------------------------------------------------------------------
// Decimal numbers
// ---------------------------------------------------------------------------

pub open spec fn digit_value(c: char) -> nat {
    ((c as u32) - ('0' as u32)) as nat
}

/// All characters of `s` are ASCII digits.
pub open spec fn all_ascii_digits(s: Seq<char>) -> bool {
    forall|i: int| 0 <= i < s.len() ==> is_ascii_digit(#[trigger] s[i])
}

/// The value of a string of ASCII digits.
pub open spec fn decimal_value(s: Seq<char>) -> nat
    decreases s.len(),
{
    if s.len() == 0 {
        0
    } else {
        decimal_value(s.drop_last()) * 10 + digit_value(s.last())
    }
}

/// The digits after an optional leading `'+'`.
pub open spec fn unsigned_digits(s: Seq<char>) -> Seq<char> {
    if s.len() > 0 && s[0] == '+' {
        s.drop_first()
    } else {
        s
    }
}

/// What `str::parse` gives for an unsigned integer type whose largest value
/// is `max`: an optional `'+'`, then at least one ASCII digit, and a value
/// that fits.
pub open spec fn parse_unsigned(s: Seq<char>, max: nat) -> Option<nat> {
    let d = unsigned_digits(s);
    if d.len() > 0 && all_ascii_digits(d) && decimal_value(d) <= max {
        Some(decimal_value(d))
    } else {
        None
    }
}

pub proof fn lemma_decimal_value_grows(s: Seq<char>, i: int)
    requires
        0 <= i <= s.len(),
        all_ascii_digits(s),
    ensures
        decimal_value(s.take(i)) <= decimal_value(s),
    decreases s.len() - i,
{
    if i < s.len() {
        assert(s.drop_last().take(i) =~= s.take(i));
        lemma_decimal_value_grows(s.drop_last(), i);
    } else {
        assert(s.take(i) =~= s);
    }
}

/// Reads the digits of `d` as a number no larger than `max`.
fn read_digits(d: &Vec<char>, max: u64) -> (r: Option<u64>)
    ensures
        match r {
            Some(v) => d@.len() > 0 && all_ascii_digits(d@) && decimal_value(d@) <= max
                && v == decimal_value(d@),
            None => !(d@.len() > 0 && all_ascii_digits(d@) && decimal_value(d@) <= max),
        },
{
    if d.len() == 0 {
        return None;
    }
    let mut acc: u64 = 0;
    let mut i: usize = 0;
    while i < d.len()
        invariant
            i <= d.len(),
            forall|j: int| 0 <= j < i ==> is_ascii_digit(#[trigger] d@[j]),
            acc == decimal_value(d@.take(i as int)),
            acc <= max,
        decreases d.len() - i,
    {
        let c = d[i];
        if !('0' <= c && c <= '9') {
            return None;
        }
        let dv: u64 = (c as u32 - '0' as u32) as u64;
        assert(d@.take(i + 1).drop_last() =~= d@.take(i as int));
        if dv > max || acc > (max - dv) / 10 {
            proof {
                if dv <= max {
                    assert(acc * 10 + dv > max) by (nonlinear_arith)
                        requires
                            acc > (max - dv) / 10,
                            dv <= max,
                    ;
                }
                assert(decimal_value(d@.take(i + 1)) > max);
                if all_ascii_digits(d@) {
                    lemma_decimal_value_grows(d@, i + 1);
                }
            }
            return None;
        }
        proof {
            assert(acc * 10 + dv <= max) by (nonlinear_arith)
                requires
                    acc <= (max - dv) / 10,
                    dv <= max,
            ;
        }
        acc = acc * 10 + dv;
        i = i + 1;
    }
    assert(d@.take(d.len() as int) =~= d@);
    Some(acc)
}

/// `str::parse` for an unsigned integer type whose largest value is `max`.
pub fn parse_unsigned_exec(s: &Vec<char>, max: u64) -> (r: Option<u64>)
    ensures
        match parse_unsigned(s@, max as nat) {
            Some(v) => r == Some(v as u64),
            None => r.is_none(),
        },
{
    if s.len() > 0 && s[0] == '+' {
        let d = slice(s, 1, s.len());
        assert(d@ =~= s@.drop_first());
        read_digits(&d, max)
    } else {
        read_digits(s, max)
    }
}

/// What `str::parse::<i64>` gives: an optional sign, then at least one ASCII
/// digit, and a value within range.
pub open spec fn parse_i64_spec(s: Seq<char>) -> Option<int> {
    if s.len() > 0 && s[0] == '-' {
        let d = s.drop_first();
        if d.len() > 0 && all_ascii_digits(d) && decimal_value(d) <= 0x8000_0000_0000_0000 {
            Some(-(decimal_value(d) as int))
        } else {
            None
        }
    } else {
        match parse_unsigned(s, 0x7FFF_FFFF_FFFF_FFFF) {
            Some(v) => Some(v as int),
            None => None,
        }
    }
}

pub fn parse_i64_exec(s: &Vec<char>) -> (r: Option<i64>)
    ensures
        match parse_i64_spec(s@) {
            Some(v) => r == Some(v as i64),
            None => r.is_none(),
        },
{
    if s.len() > 0 && s[0] == '-' {
        let d = slice(s, 1, s.len());
        assert(d@ =~= s@.drop_first());
        match read_digits(&d, 0x8000_0000_0000_0000) {
            Some(v) => {
                if v == 0x8000_0000_0000_0000 {
                    Some(i64::MIN)
                } else {
                    Some(-(v as i64))
                }
            },
            None => None,
        }
    } else {
        match parse_unsigned_exec(s, 0x7FFF_FFFF_FFFF_FFFF) {
            Some(v) => Some(v as i64),
            None => None,
        }
    }
}

/// The ASCII digit for `d < 10`.
pub open spec fn digit_char(d: nat) -> char {
    ((d + 0x30) as u32) as char
}

/// The decimal digits of `n`, without leading zeros (`"0"` for zero).
pub open spec fn decimal(n: nat) -> Seq<char>
    decreases n,
{
    if n < 10 {
        seq![digit_char(n)]
    } else {
        decimal(n / 10).push(digit_char(n % 10))
    }
}

/// `n` in decimal, padded on the left with zeros to at least `width`
/// characters (`format!("{:0width$}", n)`).
pub open spec fn padded(n: nat, width: nat) -> Seq<char> {
    let d = decimal(n);
    if d.len() < width {
        Seq::new((width - d.len()) as nat, |i: int| '0') + d
    } else {
        d
    }
}

pub proof fn lemma_decimal_len(n: nat)
    ensures
        n < 10 ==> decimal(n).len() == 1,
        10 <= n < 100 ==> decimal(n).len() == 2,
        100 <= n < 1000 ==> decimal(n).len() == 3,
        1000 <= n < 10000 ==> decimal(n).len() == 4,
        decimal(n).len() >= 1,
    decreases n,
{
    if n >= 10 {
        lemma_decimal_len(n / 10);
    }
}

pub proof fn lemma_decimal_digits(n: nat)
    ensures
        all_ascii_digits(decimal(n)),
    decreases n,
{
    if n >= 10 {
        lemma_decimal_digits(n / 10);
        assert forall|i: int| 0 <= i < decimal(n).len() implies is_ascii_digit(
            #[trigger] decimal(n)[i],
        ) by {
            if i < decimal(n / 10).len() {
                assert(decimal(n)[i] == decimal(n / 10)[i]);
            }
        }
    }
}

/// `n` in decimal (`n.to_string()`).
pub fn decimal_exec(n: u64) -> (r: Vec<char>)
    ensures
        r@ == decimal(n as nat),
    decreases n,
{
    if n < 10 {
        let c = char_from_ascii_code((n + 0x30) as u32);
        let v: Vec<char> = vec![c];
        assert(v@ =~= seq![digit_char(n as nat)]);
        v
    } else {
        let mut v = decimal_exec(n / 10);
        let c = char_from_ascii_code((n % 10 + 0x30) as u32);
        v.push(c);
        v
    }
}

/// `n` in decimal, zero-padded to at least `width` characters.
pub fn padded_exec(n: u64, width: usize) -> (r: Vec<char>)
    ensures
        r@ == padded(n as nat, width as nat),
{
    let d = decimal_exec(n);
    if d.len() < width {
        let mut out: Vec<char> = Vec::new();
        let k: usize = width - d.len();
        let mut i: usize = 0;
        while i < k
            invariant
                i <= k,
                out@ == Seq::new(i as nat, |j: int| '0'),
            decreases k - i,
        {
            out.push('0');
            i = i + 1;
            assert(out@ =~= Seq::new(i as nat, |j: int| '0'));
        }
        concat(&out, &d)
    } else {
        d
    }
}


// ---------------------------------------------------------------------------
// UTF-8 lengths
// ---------------------------------------------------------------------------

/// The number of bytes of a character's UTF-8 encoding.
pub open spec fn utf8_width(c: char) -> nat {
    if (c as u32) < 0x80 {
        1
    } else if (c as u32) < 0x800 {
        2
    } else if (c as u32) < 0x10000 {
        3
    } else {
        4
    }
}

/// The number of bytes of a text's UTF-8 encoding (`str::len`).
pub open spec fn utf8_len(s: Seq<char>) -> nat
    decreases s.len(),
{
    if s.len() == 0 {
        0
    } else {
        utf8_len(s.drop_last()) + utf8_width(s.last())
    }
}

pub proof fn lemma_utf8_len_grows(s: Seq<char>, i: int)
    requires
        0 <= i <= s.len(),
    ensures
        utf8_len(s.take(i)) <= utf8_len(s),
    decreases s.len() - i,
{
    if i < s.len() {
        assert(s.drop_last().take(i) =~= s.take(i));
        lemma_utf8_len_grows(s.drop_last(), i);
    } else {
        assert(s.take(i) =~= s);
    }
}

/// Whether the UTF-8 encoding of `s` is at least `n` bytes long.
pub fn utf8_len_at_least(s: &Vec<char>, n: usize) -> (r: bool)
    ensures
        r == (utf8_len(s@) >= n),
{
    let mut acc: usize = 0;
    let mut i: usize = 0;
    while i < s.len()
        invariant
            i <= s@.len(),
            acc == utf8_len(s@.take(i as int)),
            acc < n || n == 0,
        decreases s.len() - i,
    {
        if n == 0 {
            return true;
        }
        let c = s[i] as u32;
        let w: usize = if c < 0x80 {
            1
        } else if c < 0x800 {
            2
        } else if c < 0x10000 {
            3
        } else {
            4
        };
        assert(s@.take(i + 1).drop_last() =~= s@.take(i as int));
        if w >= n - acc {
            proof {
                lemma_utf8_len_grows(s@, i + 1);
            }
            return true;
        }
        acc = acc + w;
        i = i + 1;
    }
    assert(s@.take(s.len() as int) =~= s@);
    acc >= n
}

// ---------------------------------------------------------------------------
// Character properties kept by words, joins and trims
// ---------------------------------------------------------------------------

/// Every character of `s` has property `f`.
pub open spec fn all_chars(s: Seq<char>, f: spec_fn(char) -> bool) -> bool {
    forall|i: int| 0 <= i < s.len() ==> f(#[trigger] s[i])
}

/// Every white-space character of `s` is a plain space followed, if
/// anything follows, by a character that is no white space.
pub open spec fn spaced(s: Seq<char>) -> bool {
    forall|i: int|
        0 <= i < s.len() && is_white_space(#[trigger] s[i]) ==> s[i] == ' ' && (i + 1 < s.len()
            ==> !is_white_space(s[i + 1]))
}

/// White space in `s` stands only between words, as single plain spaces.
pub open spec fn single_spaced(s: Seq<char>) -> bool {
    forall|i: int|
        0 <= i < s.len() && is_white_space(#[trigger] s[i]) ==> s[i] == ' ' && 0 < i && i + 1
            < s.len() && !is_white_space(s[i + 1])
}

pub proof fn lemma_words_scan_all_chars(s: Seq<char>, f: spec_fn(char) -> bool)
    requires
        all_chars(s, f),
    ensures
        all_chars(words_scan(s).1, f),
        forall|i: int| 0 <= i < words_scan(s).0.len() ==> all_chars(#[trigger] words_scan(s).0[i], f),
    decreases s.len(),
{
    if s.len() > 0 {
        assert(all_chars(s.drop_last(), f)) by {
            assert forall|i: int| 0 <= i < s.drop_last().len() implies f(#[trigger] s.drop_last()[i]) by {
                assert(s.drop_last()[i] == s[i]);
            }
        }
        lemma_words_scan_all_chars(s.drop_last(), f);
        let (d, c) = words_scan(s.drop_last());
        assert(f(s[s.len() - 1]));
        assert(all_chars(c.push(s.last()), f)) by {
            assert forall|i: int| 0 <= i < c.push(s.last()).len() implies f(#[trigger] c.push(s.last())[i]) by {
                if i < c.len() {
                    assert(c.push(s.last())[i] == c[i]);
                }
            }
        }
        assert forall|i: int| 0 <= i < d.push(c).len() implies all_chars(#[trigger] d.push(c)[i], f) by {
            if i < d.len() {
                assert(d.push(c)[i] == d[i]);
            }
        }
    }
}

/// The words of a text whose characters all have property `f` have it too.
pub proof fn lemma_words_all_chars(s: Seq<char>, f: spec_fn(char) -> bool)
    requires
        all_chars(s, f),
    ensures
        forall|i: int| 0 <= i < words(s).len() ==> all_chars(#[trigger] words(s)[i], f),
{
    lemma_words_scan_all_chars(s, f);
    let (d, c) = words_scan(s);
    if c.len() > 0 {
        assert forall|i: int| 0 <= i < words(s).len() implies all_chars(#[trigger] words(s)[i], f) by {
            if i < d.len() {
                assert(words(s)[i] == d[i]);
            }
        }
    }
}

/// A join keeps a property of characters that its items and separator have.
pub proof fn lemma_join_all_chars(v: Seq<Seq<char>>, sep: Seq<char>, f: spec_fn(char) -> bool)
    requires
        forall|i: int| 0 <= i < v.len() ==> all_chars(#[trigger] v[i], f),
        all_chars(sep, f),
    ensures
        all_chars(join(v, sep), f),
    decreases v.len(),
{
    if v.len() == 1 {
        assert(all_chars(v[0], f));
    } else if v.len() > 1 {
        assert forall|i: int| 0 <= i < v.drop_last().len() implies all_chars(#[trigger] v.drop_last()[i], f) by {
            assert(v.drop_last()[i] == v[i]);
        }
        lemma_join_all_chars(v.drop_last(), sep, f);
        let a = join(v.drop_last(), sep);
        let b = v.last();
        assert(all_chars(b, f)) by {
            assert(v[v.len() - 1] == b);
        }
        let j = a + sep + b;
        assert forall|i: int| 0 <= i < j.len() implies f(#[trigger] j[i]) by {
            if i < a.len() {
                assert(j[i] == a[i]);
            } else if i < a.len() + sep.len() {
                assert(j[i] == sep[i - a.len()]);
            } else {
                assert(j[i] == b[i - a.len() - sep.len()]);
            }
        }
    }
}

/// Words joined by single spaces are single-spaced, and not empty when
/// there is a word.
pub proof fn lemma_join_single_spaced(v: Seq<Seq<char>>)
    requires
        forall|i: int| 0 <= i < v.len() ==> #[trigger] v[i].len() > 0 && word_ok(v[i]),
    ensures
        single_spaced(join(v, space())),
        v.len() > 0 ==> join(v, space()).len() > 0,
    decreases v.len(),
{
    if v.len() == 1 {
        assert(v[0].len() > 0 && word_ok(v[0]));
        assert(join(v, space()) == v[0]);
    } else if v.len() > 1 {
        assert forall|i: int| 0 <= i < v.drop_last().len() implies #[trigger] v.drop_last()[i].len() > 0
            && word_ok(v.drop_last()[i]) by {
            assert(v.drop_last()[i] == v[i]);
        }
        lemma_join_single_spaced(v.drop_last());
        let a = join(v.drop_last(), space());
        let b = v.last();
        assert(b.len() > 0 && word_ok(b)) by {
            assert(v[v.len() - 1] == b);
        }
        let j = a + space() + b;
        assert(j == join(v, space()));
        assert(is_white_space(' '));
        assert forall|i: int| 0 <= i < j.len() && is_white_space(#[trigger] j[i]) implies j[i]
            == ' ' && 0 < i && i + 1 < j.len() && !is_white_space(j[i + 1]) by {
            if i < a.len() {
                assert(j[i] == a[i]);
                assert(j[i + 1] == a[i + 1]);
            } else if i == a.len() {
                assert(j[i] == ' ');
                assert(j[i + 1] == b[0]);
            } else {
                assert(j[i] == b[i - a.len() - 1]);
            }
        }
    }
}

/// Leading characters of a set removed: a suffix whose first character is
/// not in the set.
pub proof fn lemma_trim_start_suffix(s: Seq<char>, k: TrimSet) -> (j: int)
    ensures
        0 <= j <= s.len(),
        trim_start(s, k) == s.skip(j),
        j < s.len() ==> !in_set(k, s[j]),
    decreases s.len(),
{
    if s.len() > 0 && in_set(k, s[0]) {
        let j0 = lemma_trim_start_suffix(s.drop_first(), k);
        assert(s.drop_first().skip(j0) =~= s.skip(j0 + 1));
        j0 + 1
    } else {
        assert(s.skip(0) =~= s);
        0
    }
}

/// Trailing characters of a set removed: a prefix whose last character is
/// not in the set.
pub proof fn lemma_trim_end_prefix(s: Seq<char>, k: TrimSet) -> (j: int)
    ensures
        0 <= j <= s.len(),
        trim_end(s, k) == s.take(j),
        j > 0 ==> !in_set(k, s[j - 1]),
    decreases s.len(),
{
    if s.len() > 0 && in_set(k, s.last()) {
        let j0 = lemma_trim_end_prefix(s.drop_last(), k);
        assert(s.drop_last().take(j0) =~= s.take(j0));
        j0
    } else {
        assert(s.take(s.len() as int) =~= s);
        s.len() as int
    }
}

/// Trimming keeps a property of all characters and the spacing.
pub proof fn lemma_trim_keeps(s: Seq<char>, k: TrimSet, f: spec_fn(char) -> bool)
    ensures
        all_chars(s, f) ==> all_chars(trim(s, k), f),
        spaced(s) ==> spaced(trim(s, k)),
        trim(s, k).len() > 0 ==> !in_set(k, trim(s, k)[0]) && !in_set(
            k,
            trim(s, k)[trim(s, k).len() - 1],
        ),
{
    let a = lemma_trim_start_suffix(s, k);
    let x = s.skip(a);
    let b = lemma_trim_end_prefix(x, k);
    let t = x.take(b);
    assert(trim(s, k) == t);
    assert forall|i: int| 0 <= i < t.len() implies #[trigger] t[i] == s[a + i] by {}
    if all_chars(s, f) {
        assert forall|i: int| 0 <= i < t.len() implies f(#[trigger] t[i]) by {
            assert(t[i] == s[a + i]);
        }
    }
    if spaced(s) {
        assert forall|i: int| 0 <= i < t.len() && is_white_space(#[trigger] t[i]) implies t[i]
            == ' ' && (i + 1 < t.len() ==> !is_white_space(t[i + 1])) by {
            assert(t[i] == s[a + i]);
            if i + 1 < t.len() {
                assert(t[i + 1] == s[a + i + 1]);
            }
        }
    }
    if t.len() > 0 {
        assert(t[0] == x[0]);
        assert(t[t.len() - 1] == x[b - 1]);
    }
}

/// White space trimmed from a spaced text leaves it single-spaced and
/// unchanged by a second trim.
pub proof fn lemma_trimmed_spaced(s: Seq<char>)
    requires
        spaced(s),
    ensures
        single_spaced(trim(s, TrimSet::WhiteSpace)),
        trim(trim(s, TrimSet::WhiteSpace), TrimSet::WhiteSpace) == trim(s, TrimSet::WhiteSpace),
{
    let t = trim(s, TrimSet::WhiteSpace);
    lemma_trim_keeps(s, TrimSet::WhiteSpace, |c: char| true);
    if t.len() > 0 {
        assert(!is_white_space(t[0]));
        assert(!is_white_space(t[t.len() - 1]));
    }
    assert forall|i: int| 0 <= i < t.len() && is_white_space(#[trigger] t[i]) implies t[i] == ' '
        && 0 < i && i + 1 < t.len() && !is_white_space(t[i + 1]) by {
    }
    assert(trim_start(t, TrimSet::WhiteSpace) == t);
    assert(trim_end(t, TrimSet::WhiteSpace) == t);
}

/// A single-spaced text is spaced.
pub proof fn lemma_single_spaced_is_spaced(s: Seq<char>)
    requires
        single_spaced(s),
    ensures
        spaced(s),
{
}

/// The first character of a join is that of its first item.
pub proof fn lemma_join_first(v: Seq<Seq<char>>, sep: Seq<char>)
    requires
        v.len() > 0,
        v[0].len() > 0,
    ensures
        join(v, sep).len() > 0,
        join(v, sep)[0] == v[0][0],
    decreases v.len(),
{
    if v.len() > 1 {
        assert(v.drop_last()[0] == v[0]);
        lemma_join_first(v.drop_last(), sep);
        let a = join(v.drop_last(), sep);
        assert((a + sep + v.last())[0] == a[0]);
    }
}

/// Joining the pieces of a split with the separator gives back the text.
pub proof fn lemma_join_split(s: Seq<char>, sep: char)
    ensures
        join(split_on(s, sep), seq![sep]) == s,
    decreases s.len(),
{
    if s.len() > 0 {
        let p = s.drop_last();
        lemma_join_split(p, sep);
        let (d, c) = split_scan(p, sep);
        let x = s.last();
        assert(split_on(p, sep) == d.push(c));
        if x == sep {
            let v = d.push(c).push(Seq::<char>::empty());
            assert(split_on(s, sep) == v);
            assert(v.drop_last() == d.push(c));
            assert(join(v, seq![sep]) == join(d.push(c), seq![sep]) + seq![sep] + Seq::<char>::empty());
            assert(p + seq![sep] + Seq::<char>::empty() =~= s);
        } else {
            let v = d.push(c.push(x));
            assert(split_on(s, sep) == v);
            if d.len() == 0 {
                assert(join(d.push(c), seq![sep]) == d.push(c)[0]);
                assert(d.push(c)[0] == c);
                assert(v[0] == c.push(x));
                assert(c.push(x) =~= s);
            } else {
                assert(v.drop_last() =~= d);
                assert(d.push(c).drop_last() =~= d);
                assert(d.push(c).last() == c);
                assert(join(v, seq![sep]) == join(d, seq![sep]) + seq![sep] + c.push(x));
                assert(join(d.push(c), seq![sep]) == join(d, seq![sep]) + seq![sep] + c);
                assert(join(d, seq![sep]) + seq![sep] + c.push(x) =~= (join(d, seq![sep])
                    + seq![sep] + c).push(x));
                assert(p.push(x) =~= s);
            }
        }
    } else {
        assert(split_on(s, sep) == seq![Seq::<char>::empty()]);
    }
}

} // verus!
