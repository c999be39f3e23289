//! File names for direct downloads: decoding, stripping CDN prefixes and
//! making them safe for the file system.
use vstd::prelude::*;
use vstd::utf8::{
    char_is_scalar, char_u32_cast, decode_utf8, encode_scalar, encode_utf8, has_width_1_encoding, is_scalar,
    valid_utf8,
};
use crate::organize::{is_forbidden_in_name, underscore_forbidden, underscore_forbidden_exec};
use crate::text::{
    after_last_char, after_last_char_exec, all_chars, chars_of, contains_char, has_char, is_ascii_alnum,
    slice, string_of, trim, trim_chars, trimmed, TrimSet,
};

verus! {

// ---------------------------------------------------------------------------
// Percent decoding
// ---------------------------------------------------------------------------

pub open spec fn is_hex_byte(b: u8) -> bool {
    (0x30 <= b <= 0x39) || (0x41 <= b <= 0x46) || (0x61 <= b <= 0x66)
}

pub open spec fn hex_value(b: u8) -> nat {
    if 0x30 <= b <= 0x39 {
        (b - 0x30) as nat
    } else if 0x41 <= b <= 0x46 {
        (b - 0x41 + 10) as nat
    } else {
        (b - 0x61 + 10) as nat
    }
}

/// The bytes that percent-decoding makes of the bytes from `i` on: `%HH`
/// with two hex digits becomes the byte `0xHH`, `+` a space, and every
/// other byte stays as it is.
pub open spec fn unescape_from(b: Seq<u8>, i: int) -> Seq<u8>
    decreases b.len() - i,
{
    if i < 0 || i >= b.len() {
        Seq::empty()
    } else if b[i] == 0x25 && i + 2 < b.len() && is_hex_byte(b[i + 1]) && is_hex_byte(b[i + 2]) {
        seq![(hex_value(b[i + 1]) * 16 + hex_value(b[i + 2])) as u8] + unescape_from(b, i + 3)
    } else if b[i] == 0x2B {
        seq![0x20u8] + unescape_from(b, i + 1)
    } else {
        seq![b[i]] + unescape_from(b, i + 1)
    }
}

/// The bytes of a text after percent-decoding, before they are read as
/// UTF-8.
pub open spec fn unescaped(s: Seq<char>) -> Seq<u8> {
    unescape_from(encode_utf8(s), 0)
}

/// Bytes read one character per byte, as Latin-1.
pub open spec fn latin1(b: Seq<u8>) -> Seq<char> {
    b.map_values(|x: u8| (x as u32) as char)
}

/// The percent-decoding of a text: its unescaped bytes read as UTF-8, or,
/// when they are no UTF-8, one character per byte (Latin-1).
pub open spec fn percent_decode_spec(s: Seq<char>) -> Seq<char> {
    if valid_utf8(unescaped(s)) {
        decode_utf8(unescaped(s))
    } else {
        latin1(unescaped(s))
    }
}

fn latin1_exec(b: &Vec<u8>) -> (r: String)
    ensures
        r@ == latin1(b@),
{
    let mut out: Vec<char> = Vec::new();
    let mut i: usize = 0;
    while i < b.len()
        invariant
            i <= b.len(),
            out@ == latin1(b@.take(i as int)),
        decreases b.len() - i,
    {
        let c = b[i] as char;
        out.push(c);
        i = i + 1;
        assert(latin1(b@.take(i as int)) =~= latin1(b@.take(i - 1)).push(c));
    }
    assert(b@.take(b.len() as int) =~= b@);
    string_of(&out)
}

/// `String::from_utf8`: the text that the bytes encode when they are valid
/// UTF-8, and nothing (its error) when they are not.
#[verifier::external_body]
fn utf8_text(bytes: Vec<u8>) -> (r: Option<String>)
    ensures
        r is Some <==> valid_utf8(bytes@),
        r matches Some(t) ==> t@ == decode_utf8(bytes@),
{
    String::from_utf8(bytes).ok()
}

fn hex_byte_exec(b: u8) -> (r: Option<u8>)
    ensures
        match r {
            Some(v) => is_hex_byte(b) && v as nat == hex_value(b),
            None => !is_hex_byte(b),
        },
{
    if 0x30 <= b && b <= 0x39 {
        Some(b - 0x30)
    } else if 0x41 <= b && b <= 0x46 {
        Some(b - 0x41 + 10)
    } else if 0x61 <= b && b <= 0x66 {
        Some(b - 0x61 + 10)
    } else {
        None
    }
}

/// The unescaped bytes of a text.
fn unescape(s: &str) -> (r: Vec<u8>)
    ensures
        r@ == unescaped(s@),
{
    let b = s.as_bytes();
    let n = b.len();
    let mut out: Vec<u8> = Vec::new();
    let mut i: usize = 0;
    while i < n
        invariant
            n == b@.len(),
            b@ == encode_utf8(s@),
            i <= n,
            unescape_from(b@, 0) == out@ + unescape_from(b@, i as int),
        decreases n - i,
    {
        let ghost before = out@;
        if b[i] == 0x25 && n - i > 2 {
            match (hex_byte_exec(b[i + 1]), hex_byte_exec(b[i + 2])) {
                (Some(x), Some(y)) => {
                    assert(x * 16 + y < 256);
                    let v: u8 = x * 16 + y;
                    out.push(v);
                    assert(out@ + unescape_from(b@, i + 3) =~= before + unescape_from(b@, i as int));
                    i = i + 3;
                    continue;
                },
                _ => {},
            }
        }
        let c: u8 = if b[i] == 0x2B { 0x20 } else { b[i] };
        out.push(c);
        assert(out@ + unescape_from(b@, i + 1) =~= before + unescape_from(b@, i as int));
        i = i + 1;
    }
    assert(out@ + Seq::<u8>::empty() =~= out@);
    out
}

/// Decodes percent-encoding, with `+` as a space: `%HH` gives the byte
/// `0xHH`, and the bytes are then read as UTF-8; bytes that are no UTF-8
/// are read one character per byte.
pub fn percent_decode(s: &str) -> (r: String)
    ensures
        r@ == percent_decode_spec(s@),
{
    let bytes = unescape(s);
    let copy = bytes.clone();
    match utf8_text(bytes) {
        Some(t) => t,
        None => latin1_exec(&copy),
    }
}

/// Neither `%` nor `+`.
pub open spec fn is_plain_byte(b: u8) -> bool {
    b != 0x25 && b != 0x2B
}

proof fn lemma_unescape_plain(b: Seq<u8>, i: int)
    requires
        0 <= i <= b.len(),
        forall|j: int| i <= j < b.len() ==> is_plain_byte(#[trigger] b[j]),
    ensures
        unescape_from(b, i) == b.skip(i),
    decreases b.len() - i,
{
    if i < b.len() {
        lemma_unescape_plain(b, i + 1);
        assert(b.skip(i) =~= seq![b[i]] + b.skip(i + 1));
    } else {
        assert(b.skip(i) =~= Seq::<u8>::empty());
    }
}

proof fn lemma_scalar_plain(c: u32)
    requires
        is_scalar(c),
        c != 0x25,
        c != 0x2B,
    ensures
        forall|j: int| 0 <= j < encode_scalar(c).len() ==> is_plain_byte(#[trigger] encode_scalar(c)[j]),
{
    if has_width_1_encoding(c) {
        assert((c & 0x7F) as u8 != 0x25u8 && (c & 0x7F) as u8 != 0x2Bu8) by (bit_vector)
            requires
                c <= 0x7F,
                c != 0x25,
                c != 0x2B,
        ;
    } else {
        assert(0xC0u8 <= (0xC0 | ((c >> 6) & 0x1F) as u8)) by (bit_vector);
        assert(0xE0u8 <= (0xE0 | ((c >> 12) & 0x0F) as u8)) by (bit_vector);
        assert(0xF0u8 <= (0xF0 | ((c >> 18) & 0x7) as u8)) by (bit_vector);
        assert(0x80u8 <= (0x80 | (c & 0x3F) as u8)) by (bit_vector);
        assert(0x80u8 <= (0x80 | ((c >> 6) & 0x3F) as u8)) by (bit_vector);
        assert(0x80u8 <= (0x80 | ((c >> 12) & 0x3F) as u8)) by (bit_vector);
    }
}

proof fn lemma_encode_plain(s: Seq<char>)
    requires
        !has_char(s, '%'),
        !has_char(s, '+'),
    ensures
        forall|j: int| 0 <= j < encode_utf8(s).len() ==> is_plain_byte(#[trigger] encode_utf8(s)[j]),
    decreases s.len(),
{
    if s.len() > 0 {
        let rest = s.drop_first();
        assert(!has_char(rest, '%')) by {
            if has_char(rest, '%') {
                let k = choose|k: int| 0 <= k < rest.len() && rest[k] == '%';
                assert(s[k + 1] == '%');
            }
        }
        assert(!has_char(rest, '+')) by {
            if has_char(rest, '+') {
                let k = choose|k: int| 0 <= k < rest.len() && rest[k] == '+';
                assert(s[k + 1] == '+');
            }
        }
        lemma_encode_plain(rest);
        let c = s[0];
        assert(s[0] != '%' && s[0] != '+');
        char_is_scalar(c);
        assert((c as u32) != 0x25 && (c as u32) != 0x2B) by {
            char_u32_cast(c, c as u32);
            char_u32_cast('%', 0x25u32);
            char_u32_cast('+', 0x2Bu32);
        }
        lemma_scalar_plain(c as u32);
        let e = encode_utf8(s);
        let h = encode_scalar(c as u32);
        assert(e == h + encode_utf8(rest));
        assert forall|j: int| 0 <= j < e.len() implies is_plain_byte(#[trigger] e[j]) by {
            if j < h.len() {
                assert(e[j] == h[j]);
            } else {
                assert(e[j] == encode_utf8(rest)[j - h.len()]);
            }
        }
    }
}

/// A text with neither `%` nor `+` is its own percent-decoding.
pub proof fn law_plain_text_decodes_to_itself(s: Seq<char>)
    requires
        !has_char(s, '%'),
        !has_char(s, '+'),
    ensures
        percent_decode_spec(s) == s,
{
    broadcast use vstd::utf8::encode_utf8_valid_utf8, vstd::utf8::encode_utf8_decode_utf8;

    lemma_encode_plain(s);
    lemma_unescape_plain(encode_utf8(s), 0);
    assert(encode_utf8(s).skip(0) =~= encode_utf8(s));
}

// ---------------------------------------------------------------------------
// File names
// ---------------------------------------------------------------------------

/// The last `/`-separated part of a trimmed text, trimmed.
pub open spec fn basename_spec(raw: Seq<char>) -> Seq<char> {
    trim(after_last_char(trim(raw, TrimSet::WhiteSpace), '/'), TrimSet::WhiteSpace)
}

pub fn basename(raw: &Vec<char>) -> (r: Vec<char>)
    ensures
        r@ == basename_spec(raw@),
{
    let t = trim_chars(raw, TrimSet::WhiteSpace);
    let last = after_last_char_exec(&t, '/');
    trim_chars(&last, TrimSet::WhiteSpace)
}

/// Characters of a CDN identifier prefix: `[A-Za-z0-9_-]`.
pub open spec fn is_id_char(c: char) -> bool {
    is_ascii_alnum(c) || c == '_' || c == '-'
}

/// `.+\.[A-Za-z0-9]{2,5}$`: a name with a short alphanumeric extension.
pub open spec fn named_with_short_ext(t: Seq<char>) -> bool {
    let a = after_last_char(t, '.');
    &&& !has_char(t, '\n')
    &&& a.len() + 2 <= t.len()
    &&& 2 <= a.len() <= 5
    &&& forall|j: int| 0 <= j < a.len() ==> is_ascii_alnum(#[trigger] a[j])
}

/// `name[..k]` is an identifier of at least 8 characters followed by `-`
/// and a name with a short extension.
pub open spec fn id_split_at(name: Seq<char>, k: int) -> bool {
    &&& 8 <= k < name.len()
    &&& forall|j: int| 0 <= j < k ==> is_id_char(#[trigger] name[j])
    &&& name[k] == '-'
    &&& named_with_short_ext(name.skip(k + 1))
}

/// The split that `^[A-Za-z0-9_-]{8,}-(.+\.[A-Za-z0-9]{2,5})$` finds: the
/// greedy identifier run makes it the last one.
pub open spec fn id_split_below(name: Seq<char>, k: int) -> Option<int>
    decreases k,
{
    if k < 8 {
        None
    } else if id_split_at(name, k) {
        Some(k)
    } else {
        id_split_below(name, k - 1)
    }
}

/// The name without a CDN identifier prefix, when it has one.
pub open spec fn strip_id_prefix(name: Seq<char>) -> Seq<char> {
    match id_split_below(name, name.len() - 1) {
        Some(k) => name.skip(k + 1),
        None => name,
    }
}

/// What `clean_download_filename` makes of a decoded name that it keeps.
pub open spec fn clean_name_spec(decoded: Seq<char>) -> Option<Seq<char>> {
    let name = basename_spec(decoded);
    if name.len() == 0 || !has_char(name, '.') {
        None
    } else {
        let n2 = underscore_forbidden(strip_id_prefix(name));
        if n2.len() == 0 {
            None
        } else {
            Some(n2)
        }
    }
}

fn is_id_char_exec(c: char) -> (r: bool)
    ensures
        r == is_id_char(c),
{
    crate::text::ascii_alnum(c) || c == '_' || c == '-'
}

fn named_with_short_ext_exec(t: &Vec<char>) -> (r: bool)
    ensures
        r == named_with_short_ext(t@),
{
    if contains_char(t, '\n') {
        return false;
    }
    let a = after_last_char_exec(t, '.');
    if !(a.len() <= 5 && 2 <= a.len() && a.len() + 2 <= t.len()) {
        return false;
    }
    let mut j: usize = 0;
    while j < a.len()
        invariant
            j <= a.len(),
            a@ == after_last_char(t@, '.'),
            forall|k: int| 0 <= k < j ==> is_ascii_alnum(#[trigger] a@[k]),
        decreases a.len() - j,
    {
        if !crate::text::ascii_alnum(a[j]) {
            assert(!is_ascii_alnum(a@[j as int]));
            return false;
        }
        j = j + 1;
    }
    true
}

fn strip_id_prefix_exec(name: &Vec<char>) -> (r: Vec<char>)
    ensures
        r@ == strip_id_prefix(name@),
{
    // Length of the identifier run at the start.
    let mut run: usize = 0;
    while run < name.len() && is_id_char_exec(name[run])
        invariant
            run <= name.len(),
            forall|j: int| 0 <= j < run ==> is_id_char(#[trigger] name@[j]),
        decreases name.len() - run,
    {
        run = run + 1;
    }
    if name.len() == 0 {
        return slice(name, 0, 0);
    }
    // Try the splits from the last one down.
    let mut k: usize = name.len() - 1;
    assert(k == name@.len() - 1);
    loop
        invariant
            k < name.len(),
            run <= name.len(),
            forall|j: int| 0 <= j < run ==> is_id_char(#[trigger] name@[j]),
            run < name.len() ==> !is_id_char(name@[run as int]),
            id_split_below(name@, name@.len() - 1) == id_split_below(name@, k as int),
        decreases k,
    {
        if k < 8 {
            return slice(name, 0, name.len());
        }
        if k < run && name[k] == '-' {
            let rest = slice(name, k + 1, name.len());
            assert(rest@ =~= name@.skip(k + 1));
            if named_with_short_ext_exec(&rest) {
                assert(id_split_at(name@, k as int));
                return rest;
            }
        } else {
            if k >= run {
                assert(!is_id_char(name@[run as int]));
            }
        }
        k = k - 1;
    }
}

/// Strips a CDN identifier prefix and makes a file name safe for the file
/// system; nothing when the text does not end in a name with a dot.
pub open spec fn clean_download_filename_spec(raw: Seq<char>) -> Option<Seq<char>> {
    clean_name_spec(percent_decode_spec(raw))
}

/// A clean file name from a downloaded name: percent-decoded, reduced to
/// its last path part, stripped of a CDN identifier prefix, with
/// characters that file systems refuse replaced by `_`.
pub fn clean_download_filename(raw: &str) -> (r: Option<String>)
    ensures
        match clean_download_filename_spec(raw@) {
            Some(n) => r.is_some() && r.unwrap()@ == n,
            None => r.is_none(),
        },
{
    let decoded = percent_decode(raw);
    let name = basename(&chars_of(decoded.as_str()));
    if name.len() == 0 || !contains_char(&name, '.') {
        return None;
    }
    let stripped = strip_id_prefix_exec(&name);
    let cleaned = underscore_forbidden_exec(&stripped);
    if cleaned.len() == 0 {
        None
    } else {
        Some(string_of(&cleaned))
    }
}

/// The text before the first `'?'` or `'#'`.
pub open spec fn before_query(s: Seq<char>) -> Seq<char>
    decreases s.len(),
{
    if s.len() == 0 || s[0] == '?' || s[0] == '#' {
        Seq::empty()
    } else {
        seq![s[0]] + before_query(s.drop_first())
    }
}

fn before_query_exec(s: &Vec<char>) -> (r: Vec<char>)
    ensures
        r@ == before_query(s@),
{
    let mut i: usize = 0;
    assert(s@.skip(0) =~= s@);
    assert(s@.take(0) + s@.skip(0) =~= s@);
    while i < s.len() && s[i] != '?' && s[i] != '#'
        invariant
            i <= s.len(),
            before_query(s@) == s@.take(i as int) + before_query(s@.skip(i as int)),
        decreases s.len() - i,
    {
        assert(s@.skip(i as int).drop_first() =~= s@.skip(i + 1));
        assert(s@.take(i as int) + seq![s@[i as int]] =~= s@.take(i + 1));
        i = i + 1;
    }
    let r = slice(s, 0, i);
    assert(r@ =~= s@.take(i as int));
    assert(s@.take(i as int) + Seq::<char>::empty() =~= s@.take(i as int));
    r
}

/// The last path segment of a URL, before any query or fragment.
pub open spec fn url_last_segment(url: Seq<char>) -> Seq<char> {
    after_last_char(before_query(trim(url, TrimSet::WhiteSpace)), '/')
}

/// A clean file name taken from the last path segment of a URL.
pub open spec fn filename_from_url_spec(url: Seq<char>) -> Option<Seq<char>> {
    clean_download_filename_spec(url_last_segment(url))
}

/// A clean file name from the last path segment of a URL (its query and
/// fragment left out).
pub fn filename_from_url(url: &str) -> (r: Option<String>)
    ensures
        match filename_from_url_spec(url@) {
            Some(n) => r.is_some() && r.unwrap()@ == n,
            None => r.is_none(),
        },
{
    let t = trimmed(url);
    let p = before_query_exec(&t);
    let seg = after_last_char_exec(&p, '/');
    let s = string_of(&seg);
    clean_download_filename(s.as_str())
}

/// A cleaned download file name is never empty and holds no character
/// that file systems refuse in a name.
pub proof fn law_clean_name_is_safe(raw: Seq<char>)
    ensures
        clean_download_filename_spec(raw) matches Some(n) ==> n.len() > 0 && forall|i: int|
            0 <= i < n.len() ==> !is_forbidden_in_name(#[trigger] n[i]),
{
    if let Some(n) = clean_download_filename_spec(raw) {
        assert forall|i: int| 0 <= i < n.len() implies !is_forbidden_in_name(#[trigger] n[i]) by {
        }
    }
}

proof fn lemma_id_split_below(name: Seq<char>, k: int)
    ensures
        id_split_below(name, k) matches Some(m) ==> m <= k && id_split_at(name, m) && forall|j: int|
            m < j <= k ==> !id_split_at(name, j),
        id_split_below(name, k) is None ==> forall|j: int| j <= k ==> !id_split_at(name, j),
    decreases k,
{
    if k >= 8 && !id_split_at(name, k) {
        lemma_id_split_below(name, k - 1);
    }
}

proof fn lemma_short_ext_has_dot(t: Seq<char>)
    requires
        named_with_short_ext(t),
    ensures
        has_char(t, '.'),
{
    crate::text::lemma_split_scan_last(t, '.');
    let a = after_last_char(t, '.');
    assert(a == crate::text::split_scan(t, '.').1);
    assert(t[t.len() - a.len() - 1] == '.');
}

/// The name that `clean_download_filename` starts from: the last
/// `/`-separated part of the decoded text, trimmed.
pub open spec fn download_basename(raw: Seq<char>) -> Seq<char> {
    basename_spec(percent_decode_spec(raw))
}

/// A clean file name exists exactly when the decoded base name is not
/// empty and holds a dot; it then holds a dot and nothing file systems
/// refuse, and it is made from the part after a CDN identifier prefix
/// (the last split that `^[A-Za-z0-9_-]{8,}-(.+\.[A-Za-z0-9]{2,5})$`
/// allows) when there is one, and from the whole base name otherwise.
pub proof fn law_clean_download_filename(raw: Seq<char>)
    ensures
        clean_download_filename_spec(raw) is None <==> (download_basename(raw).len() == 0
            || !has_char(download_basename(raw), '.')),
        clean_download_filename_spec(raw) matches Some(n) ==> has_char(n, '.') && all_chars(
            n,
            |c: char| !is_forbidden_in_name(c),
        ),
        clean_download_filename_spec(raw) matches Some(n) ==> ((exists|k: int|
            id_split_at(download_basename(raw), k)) ==> exists|k: int|
            id_split_at(download_basename(raw), k) && n == underscore_forbidden(
                download_basename(raw).skip(k + 1),
            ) && forall|j: int| k < j ==> !id_split_at(download_basename(raw), j)),
        clean_download_filename_spec(raw) matches Some(n) ==> ((forall|k: int|
            !id_split_at(download_basename(raw), k)) ==> n == underscore_forbidden(
            download_basename(raw),
        )),
{
    let b = download_basename(raw);
    law_clean_name_is_safe(raw);
    if b.len() > 0 && has_char(b, '.') {
        lemma_id_split_below(b, b.len() - 1);
        let t = strip_id_prefix(b);
        match id_split_below(b, b.len() - 1) {
            Some(k) => {
                lemma_short_ext_has_dot(b.skip(k + 1));
                assert forall|j: int| k < j implies !id_split_at(b, j) by {
                    if j >= b.len() {
                        assert(!(j < b.len()));
                    }
                }
            },
            None => {
                assert forall|k: int| !id_split_at(b, k) by {
                    if k > b.len() - 1 {
                        assert(!(k < b.len()));
                    }
                }
            },
        }
        assert(has_char(t, '.'));
        let n = underscore_forbidden(t);
        let i = choose|i: int| 0 <= i < t.len() && t[i] == '.';
        assert(n[i] == '.');
        assert(n.len() == t.len());
        assert(n.len() > 0);
    }
}

} // verus!
