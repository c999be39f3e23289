//! Reading version numbers out of the tools' version texts and release
//! tags, and deciding when a newer release is out.
use vstd::prelude::*;
use crate::store::opt_view;
use crate::text::{
    chars_lt, chars_of, concat, decimal_digit, has_prefix, is_decimal_digit, lex_lt, lit,
    matches_at, occurs_at, padded, padded_exec, parse_unsigned, parse_unsigned_exec, slice,
    split_char, split_on, split_whitespace, starts_with, string_of, trim_start, trim_start_chars,
    words, TrimSet,
};

verus! {

// ---------------------------------------------------------------------------
// Version keys
// ---------------------------------------------------------------------------

/// The `i`-th dot-separated part of a version as a number; a missing part,
/// or one that is not a `u32`, counts as zero.
pub open spec fn ver_part(v: Seq<char>, i: int) -> nat {
    let parts = split_on(v, '.');
    if i < parts.len() {
        match parse_unsigned(parts[i], 0xFFFF_FFFF) {
            Some(n) => n,
            None => 0,
        }
    } else {
        0
    }
}

/// A key that orders versions: the first three parts, each written with
/// at least three digits.
pub open spec fn ver_key_spec(v: Seq<char>) -> Seq<char> {
    padded(ver_part(v, 0), 3) + padded(ver_part(v, 1), 3) + padded(ver_part(v, 2), 3)
}

fn ver_part_exec(parts: &Vec<Vec<char>>, i: usize) -> (r: u64)
    ensures
        i < parts@.len() ==> r == match parse_unsigned(parts@[i as int]@, 0xFFFF_FFFF) {
            Some(n) => n,
            None => 0,
        },
        i >= parts@.len() ==> r == 0,
{
    if i < parts.len() {
        match parse_unsigned_exec(&parts[i], 0xFFFF_FFFF) {
            Some(n) => n,
            None => 0,
        }
    } else {
        0
    }
}

pub fn ver_key(v: &str) -> (r: String)
    ensures
        r@ == ver_key_spec(v@),
{
    let parts = split_char(&chars_of(v), '.');
    let a = padded_exec(ver_part_exec(&parts, 0), 3);
    let b = padded_exec(ver_part_exec(&parts, 1), 3);
    let c = padded_exec(ver_part_exec(&parts, 2), 3);
    string_of(&concat(&concat(&a, &b), &c))
}

// ---------------------------------------------------------------------------
// aria2
// ---------------------------------------------------------------------------

/// The version in an aria2 release tag: without a leading `release-`, then
/// without leading `n`s.
pub open spec fn aria2_latest_ver(latest: Seq<char>) -> Seq<char> {
    let s = if has_prefix(latest, "release-"@) {
        latest.skip(8)
    } else {
        latest
    };
    trim_start(s, TrimSet::LetterN)
}

/// The first word of the installed aria2 version text (the whole text when
/// it has none).
pub open spec fn first_word(s: Seq<char>) -> Seq<char> {
    if words(s).len() > 0 {
        words(s)[0]
    } else {
        s
    }
}

pub open spec fn aria2_outdated_spec(installed: Seq<char>, latest: Seq<char>) -> bool {
    lex_lt(ver_key_spec(first_word(installed)), ver_key_spec(aria2_latest_ver(latest)))
}

/// Whether the installed aria2 is older than the latest release.
pub fn aria2_outdated(installed: &str, latest: &str) -> (r: bool)
    ensures
        r == aria2_outdated_spec(installed@, latest@),
{
    proof {
        reveal_strlit("release-");
    }
    let l = chars_of(latest);
    let stripped = if starts_with(&l, &lit("release-")) {
        let s = slice(&l, 8, l.len());
        assert(s@ =~= l@.skip(8));
        s
    } else {
        l
    };
    let latest_ver = trim_start_chars(&stripped, TrimSet::LetterN);
    let inst = chars_of(installed);
    let ws = split_whitespace(&inst);
    let installed_ver = if ws.len() > 0 {
        crate::text::copy_chars(&ws[0])
    } else {
        inst
    };
    let a = ver_key(string_of(&installed_ver).as_str());
    let b = ver_key(string_of(&latest_ver).as_str());
    chars_lt(&chars_of(a.as_str()), &chars_of(b.as_str()))
}

// ---------------------------------------------------------------------------
// yt-dlp: dates of the form dddd.dd.dd
// ---------------------------------------------------------------------------

/// A date `dddd.dd.dd` (any decimal digits) starts at `i`.
pub open spec fn date_at(s: Seq<char>, i: int) -> bool {
    &&& 0 <= i && i + 10 <= s.len()
    &&& forall|k: int|
        0 <= k < 10 && k != 4 && k != 7 ==> #[trigger] is_decimal_digit(s[i + k])
    &&& s[i + 4] == '.'
    &&& s[i + 7] == '.'
}

/// The leftmost date at or after `i`.
pub open spec fn first_date_from(s: Seq<char>, i: int) -> Option<Seq<char>>
    decreases s.len() - i,
{
    if i < 0 || i + 10 > s.len() {
        None
    } else if date_at(s, i) {
        Some(s.subrange(i, i + 10))
    } else {
        first_date_from(s, i + 1)
    }
}

fn date_at_exec(s: &Vec<char>, i: usize) -> (r: bool)
    requires
        i + 10 <= s.len(),
    ensures
        r == date_at(s@, i as int),
{
    if s[i + 4] != '.' || s[i + 7] != '.' {
        return false;
    }
    let mut k: usize = 0;
    while k < 10
        invariant
            k <= 10,
            i + 10 <= s.len(),
            forall|j: int|
                0 <= j < k && j != 4 && j != 7 ==> #[trigger] is_decimal_digit(s@[i + j]),
        decreases 10 - k,
    {
        if k != 4 && k != 7 && !decimal_digit(s[i + k]) {
            return false;
        }
        k = k + 1;
    }
    true
}

fn first_date(s: &Vec<char>) -> (r: Option<Vec<char>>)
    ensures
        match first_date_from(s@, 0) {
            Some(d) => r matches Some(v) && v@ == d,
            None => r is None,
        },
{
    if s.len() < 10 {
        return None;
    }
    let mut i: usize = 0;
    while i <= s.len() - 10
        invariant
            s@.len() >= 10,
            i + 10 <= s@.len() + 1,
            first_date_from(s@, 0) == first_date_from(s@, i as int),
        decreases s.len() - i,
    {
        if date_at_exec(s, i) {
            let d = slice(s, i, i + 10);
            return Some(d);
        }
        i = i + 1;
    }
    None
}

pub open spec fn ytdlp_outdated_spec(installed: Seq<char>, latest: Seq<char>) -> bool {
    match (first_date_from(installed, 0), first_date_from(latest, 0)) {
        (Some(a), Some(b)) => lex_lt(a, b),
        _ => false,
    }
}

/// Whether the installed yt-dlp, by the first date in its version text, is
/// older than the latest release.
pub fn ytdlp_outdated(installed: &str, latest: &str) -> (r: bool)
    ensures
        r == ytdlp_outdated_spec(installed@, latest@),
{
    match (first_date(&chars_of(installed)), first_date(&chars_of(latest))) {
        (Some(a), Some(b)) => chars_lt(&a, &b),
        _ => false,
    }
}

// ---------------------------------------------------------------------------
// ffmpeg
// ---------------------------------------------------------------------------

pub open spec fn is_digit_or_dot(c: char) -> bool {
    is_decimal_digit(c) || c == '.'
}

/// The end of the run of digits and dots that starts at `j`.
pub open spec fn dotted_run_end(s: Seq<char>, j: int) -> int
    decreases s.len() - j,
{
    if 0 <= j < s.len() && is_digit_or_dot(s[j]) {
        dotted_run_end(s, j + 1)
    } else {
        j
    }
}

/// The end of the run of digits that starts at `j`.
pub open spec fn digit_run_end(s: Seq<char>, j: int) -> int
    decreases s.len() - j,
{
    if 0 <= j < s.len() && is_decimal_digit(s[j]) {
        digit_run_end(s, j + 1)
    } else {
        j
    }
}

pub proof fn lemma_run_ends(s: Seq<char>, j: int)
    requires
        0 <= j <= s.len(),
    ensures
        j <= dotted_run_end(s, j) <= s.len(),
        j <= digit_run_end(s, j) <= s.len(),
    decreases s.len() - j,
{
    if j < s.len() {
        lemma_run_ends(s, j + 1);
    }
}

pub fn dotted_run_end_exec(s: &Vec<char>, j: usize) -> (r: usize)
    requires
        j <= s@.len(),
    ensures
        r == dotted_run_end(s@, j as int),
{
    let mut k = j;
    while k < s.len() && (decimal_digit(s[k]) || s[k] == '.')
        invariant
            j <= k <= s@.len(),
            dotted_run_end(s@, j as int) == dotted_run_end(s@, k as int),
        decreases s.len() - k,
    {
        k = k + 1;
    }
    k
}

fn digit_run_end_exec(s: &Vec<char>, j: usize) -> (r: usize)
    requires
        j <= s@.len(),
    ensures
        r == digit_run_end(s@, j as int),
{
    let mut k = j;
    while k < s.len() && decimal_digit(s[k])
        invariant
            j <= k <= s@.len(),
            digit_run_end(s@, j as int) == digit_run_end(s@, k as int),
        decreases s.len() - k,
    {
        k = k + 1;
    }
    k
}

/// The version in ffmpeg's version text: the digits and dots right after
/// the leftmost `ffmpeg version ` that is followed by at least one of them.
pub open spec fn ffmpeg_installed_from(s: Seq<char>, i: int) -> Option<Seq<char>>
    decreases s.len() - i,
{
    if i < 0 || i + 16 > s.len() {
        None
    } else if occurs_at(s, "ffmpeg version "@, i) && is_digit_or_dot(s[i + 15]) {
        Some(s.subrange(i + 15, dotted_run_end(s, i + 15)))
    } else {
        ffmpeg_installed_from(s, i + 1)
    }
}

fn ffmpeg_installed(s: &Vec<char>) -> (r: Option<Vec<char>>)
    ensures
        match ffmpeg_installed_from(s@, 0) {
            Some(d) => r matches Some(v) && v@ == d,
            None => r is None,
        },
{
    proof {
        reveal_strlit("ffmpeg version ");
    }
    let pat = lit("ffmpeg version ");
    assert(pat@.len() == 15);
    if s.len() < 16 {
        return None;
    }
    let mut i: usize = 0;
    while i <= s.len() - 16
        invariant
            s@.len() >= 16,
            i + 16 <= s@.len() + 1,
            pat@ == "ffmpeg version "@,
            pat@.len() == 15,
            ffmpeg_installed_from(s@, 0) == ffmpeg_installed_from(s@, i as int),
        decreases s.len() - i,
    {
        if matches_at(s, &pat, i) && (decimal_digit(s[i + 15]) || s[i + 15] == '.') {
            let e = dotted_run_end_exec(s, i + 15);
            proof {
                lemma_run_ends(s@, i + 15);
            }
            return Some(slice(s, i + 15, e));
        }
        i = i + 1;
    }
    None
}

/// The end of a version number `d+.d+` or `d+.d+.d+` (digits being any
/// decimal digits) that starts at `j`, the optional third part taken when
/// present.
pub open spec fn number_end(s: Seq<char>, j: int) -> Option<int> {
    let e1 = digit_run_end(s, j);
    if e1 > j && e1 < s.len() && s[e1] == '.' {
        let e2 = digit_run_end(s, e1 + 1);
        if e2 > e1 + 1 {
            if e2 < s.len() && s[e2] == '.' && digit_run_end(s, e2 + 1) > e2 + 1 {
                Some(digit_run_end(s, e2 + 1))
            } else {
                Some(e2)
            }
        } else {
            None
        }
    } else {
        None
    }
}

/// The leftmost version number at or after `j` in ffmpeg's release tag.
pub open spec fn ffmpeg_latest_from(s: Seq<char>, j: int) -> Option<Seq<char>>
    decreases s.len() - j,
{
    if j < 0 || j >= s.len() {
        None
    } else {
        match number_end(s, j) {
            Some(e) => Some(s.subrange(j, e)),
            None => ffmpeg_latest_from(s, j + 1),
        }
    }
}

fn number_end_exec(s: &Vec<char>, j: usize) -> (r: Option<usize>)
    requires
        j <= s@.len(),
    ensures
        match number_end(s@, j as int) {
            Some(e) => r == Some(e as usize) && j < e <= s@.len(),
            None => r is None,
        },
{
    proof {
        lemma_run_ends(s@, j as int);
    }
    let e1 = digit_run_end_exec(s, j);
    if e1 > j && e1 < s.len() && s[e1] == '.' {
        proof {
            lemma_run_ends(s@, e1 + 1);
        }
        let e2 = digit_run_end_exec(s, e1 + 1);
        if e2 > e1 + 1 {
            if e2 < s.len() && s[e2] == '.' {
                proof {
                    lemma_run_ends(s@, e2 + 1);
                }
                let e3 = digit_run_end_exec(s, e2 + 1);
                if e3 > e2 + 1 {
                    return Some(e3);
                }
            }
            Some(e2)
        } else {
            None
        }
    } else {
        None
    }
}

fn ffmpeg_latest(s: &Vec<char>) -> (r: Option<Vec<char>>)
    ensures
        match ffmpeg_latest_from(s@, 0) {
            Some(d) => r matches Some(v) && v@ == d,
            None => r is None,
        },
{
    let mut j: usize = 0;
    while j < s.len()
        invariant
            j <= s@.len(),
            ffmpeg_latest_from(s@, 0) == ffmpeg_latest_from(s@, j as int),
        decreases s.len() - j,
    {
        match number_end_exec(s, j) {
            Some(e) => {
                return Some(slice(s, j, e));
            },
            None => {},
        }
        j = j + 1;
    }
    None
}

pub open spec fn ffmpeg_outdated_spec(installed: Seq<char>, latest: Seq<char>) -> bool {
    match (ffmpeg_installed_from(installed, 0), ffmpeg_latest_from(latest, 0)) {
        (Some(a), Some(b)) => lex_lt(ver_key_spec(a), ver_key_spec(b)),
        _ => false,
    }
}

/// Whether the installed ffmpeg is older than the latest release tag.
pub fn ffmpeg_outdated(installed: &str, latest: &str) -> (r: bool)
    ensures
        r == ffmpeg_outdated_spec(installed@, latest@),
{
    match (ffmpeg_installed(&chars_of(installed)), ffmpeg_latest(&chars_of(latest))) {
        (Some(a), Some(b)) => {
            let ka = ver_key(string_of(&a).as_str());
            let kb = ver_key(string_of(&b).as_str());
            chars_lt(&chars_of(ka.as_str()), &chars_of(kb.as_str()))
        },
        _ => false,
    }
}

// ---------------------------------------------------------------------------
// Health report pieces
// ---------------------------------------------------------------------------

/// What the health report says of one helper program.
#[derive(Debug, Clone)]
pub struct BinaryInfo {
    pub name: String,
    pub installed: String,
    pub latest: Option<String>,
    pub update_available: bool,
    pub error: Option<String>,
}

/// Which helper program a report is about.
#[derive(Debug, Clone, Copy, PartialEq, Eq, Structural)]
pub enum Helper {
    Ytdlp,
    Ffmpeg,
}

pub open spec fn helper_name(h: Helper) -> Seq<char> {
    match h {
        Helper::Ytdlp => "yt-dlp"@,
        Helper::Ffmpeg => "ffmpeg"@,
    }
}

pub open spec fn helper_outdated(h: Helper, installed: Seq<char>, latest: Seq<char>) -> bool {
    match h {
        Helper::Ytdlp => ytdlp_outdated_spec(installed, latest),
        Helper::Ffmpeg => ffmpeg_outdated_spec(installed, latest),
    }
}

/// The report on a helper program, from what asking it for its version
/// gave (its version text, or the error's message) and from its latest
/// release, when that is known.
pub open spec fn binary_info_spec(
    h: Helper,
    asked: Result<Seq<char>, Seq<char>>,
    latest: Option<Seq<char>>,
    info: BinaryInfo,
) -> bool {
    &&& info.name@ == helper_name(h)
    &&& opt_view(info.latest) == latest
    &&& match asked {
        Ok(installed) => {
            &&& info.installed@ == installed
            &&& info.update_available == match latest {
                Some(l) => helper_outdated(h, installed, l),
                None => false,
            }
            &&& info.error is None
        },
        Err(e) => {
            &&& info.installed@ == Seq::<char>::empty()
            &&& !info.update_available
            &&& opt_view(info.error) == Some(e)
        },
    }
}

pub open spec fn result_view(r: Result<String, String>) -> Result<Seq<char>, Seq<char>> {
    match r {
        Ok(s) => Ok(s@),
        Err(e) => Err(e@),
    }
}

pub fn binary_info(h: Helper, asked: Result<String, String>, latest: Option<String>) -> (r:
    BinaryInfo)
    ensures
        binary_info_spec(h, result_view(asked), opt_view(latest), r),
{
    let name = match h {
        Helper::Ytdlp => "yt-dlp".to_string(),
        Helper::Ffmpeg => "ffmpeg".to_string(),
    };
    match asked {
        Ok(installed) => {
            let update = match &latest {
                Some(l) => match h {
                    Helper::Ytdlp => ytdlp_outdated(installed.as_str(), l.as_str()),
                    Helper::Ffmpeg => ffmpeg_outdated(installed.as_str(), l.as_str()),
                },
                None => false,
            };
            BinaryInfo { name, installed, latest, update_available: update, error: None }
        },
        Err(e) => BinaryInfo {
            name,
            installed: String::new(),
            latest,
            update_available: false,
            error: Some(e),
        },
    }
}

/// The aria2 lines of the health report, from its installed version (when
/// aria2 answered) and its latest release: the latest release is reported
/// only beside an installed version, and an update only when both are
/// known and the installed one is older.
pub fn aria2_report(installed: &Option<String>, latest: &Option<String>) -> (r: (
    Option<String>,
    bool,
))
    ensures
        installed.is_none() ==> r.0 is None && !r.1,
        installed matches Some(i) ==> opt_view(r.0) == opt_view(*latest) && r.1 == match latest {
            Some(l) => aria2_outdated_spec(i@, l@),
            None => false,
        },
{
    match installed {
        None => (None, false),
        Some(i) => {
            let update = match latest {
                Some(l) => aria2_outdated(i.as_str(), l.as_str()),
                None => false,
            };
            (crate::store::clone_opt(latest), update)
        },
    }
}

/// How long a health report is served from the cache.
pub const HEALTH_CACHE_MS: u64 = 900_000;

/// A cached health report is still served after `elapsed_ms` milliseconds.
pub fn cache_is_fresh(elapsed_ms: u64) -> (r: bool)
    ensures
        r == (elapsed_ms < HEALTH_CACHE_MS),
{
    elapsed_ms < HEALTH_CACHE_MS
}

proof fn lemma_lex_lt_irreflexive(a: Seq<char>)
    ensures
        !lex_lt(a, a),
    decreases a.len(),
{
    if a.len() > 0 {
        lemma_lex_lt_irreflexive(a.drop_first());
    }
}

/// A yt-dlp is never older than a release of the same version text.
pub proof fn law_ytdlp_not_older_than_itself(v: Seq<char>)
    ensures
        !ytdlp_outdated_spec(v, v),
{
    if let Some(d) = first_date_from(v, 0) {
        lemma_lex_lt_irreflexive(d);
    }
}

/// A date that yt-dlp's version is read by is a whole `dddd.dd.dd` run of
/// the text: the ten characters of a date that starts at some index, with
/// the dots in place.
pub proof fn law_dates_are_whole(s: Seq<char>, i: int)
    ensures
        first_date_from(s, i) matches Some(d) ==> d.len() == 10 && d[4] == '.' && d[7] == '.'
            && exists|j: int| #[trigger] date_at(s, j) && d == s.subrange(j, j + 10),
    decreases s.len() - i,
{
    if !(i < 0 || i + 10 > s.len()) && !date_at(s, i) {
        law_dates_are_whole(s, i + 1);
    }
    if !(i < 0 || i + 10 > s.len()) && date_at(s, i) {
        let d = s.subrange(i, i + 10);
        assert(d[4] == s[i + 4] && d[7] == s[i + 7]);
    }
}

/// Two yt-dlp versions that are bare dates compare as their whole texts:
/// the installed one is outdated exactly when it comes first, so a later
/// day of the same month counts.
pub proof fn law_ytdlp_dates_compare_whole(a: Seq<char>, b: Seq<char>)
    requires
        a.len() == 10,
        b.len() == 10,
        date_at(a, 0),
        date_at(b, 0),
    ensures
        ytdlp_outdated_spec(a, b) == lex_lt(a, b),
{
    assert(a.subrange(0, 10) =~= a);
    assert(b.subrange(0, 10) =~= b);
}

// ---------------------------------------------------------------------------
// Version keys order versions by their numbers
// ---------------------------------------------------------------------------

/// The three leading numbers of `a` come before those of `b`, compared
/// number by number.
pub open spec fn parts_lt(a: Seq<char>, b: Seq<char>) -> bool {
    ||| ver_part(a, 0) < ver_part(b, 0)
    ||| ver_part(a, 0) == ver_part(b, 0) && ver_part(a, 1) < ver_part(b, 1)
    ||| ver_part(a, 0) == ver_part(b, 0) && ver_part(a, 1) == ver_part(b, 1) && ver_part(a, 2)
        < ver_part(b, 2)
}

/// The three leading numbers of a version are each below 1000.
pub open spec fn small_version(v: Seq<char>) -> bool {
    ver_part(v, 0) < 1000 && ver_part(v, 1) < 1000 && ver_part(v, 2) < 1000
}

proof fn lemma_padded3(n: nat)
    requires
        n < 1000,
    ensures
        crate::text::padded(n, 3) == seq![
            crate::text::digit_char(n / 100),
            crate::text::digit_char((n / 10) % 10),
            crate::text::digit_char(n % 10),
        ],
{
    reveal_with_fuel(crate::text::decimal, 3);
    let z = crate::text::digit_char(0);
    assert(z == '0');
    if n < 10 {
        assert(crate::text::decimal(n) == seq![crate::text::digit_char(n)]);
        assert(crate::text::padded(n, 3) =~= seq![z, z, crate::text::digit_char(n)]);
    } else if n < 100 {
        assert(crate::text::decimal(n / 10) == seq![crate::text::digit_char(n / 10)]);
        assert(crate::text::decimal(n) =~= seq![
            crate::text::digit_char(n / 10),
            crate::text::digit_char(n % 10),
        ]);
        assert(crate::text::padded(n, 3) =~= seq![
            z,
            crate::text::digit_char(n / 10),
            crate::text::digit_char(n % 10),
        ]);
    } else {
        let m = n / 10;
        assert(10 <= m < 100);
        assert(m / 10 == n / 100);
        assert(m % 10 == (n / 10) % 10);
        assert(crate::text::decimal(m / 10) == seq![crate::text::digit_char(m / 10)]);
        assert(crate::text::decimal(m) =~= seq![
            crate::text::digit_char(m / 10),
            crate::text::digit_char(m % 10),
        ]);
        assert(crate::text::decimal(n) =~= seq![
            crate::text::digit_char(n / 100),
            crate::text::digit_char((n / 10) % 10),
            crate::text::digit_char(n % 10),
        ]);
    }
}

proof fn lemma_lex_concat(x: Seq<char>, y: Seq<char>, u: Seq<char>, v: Seq<char>)
    requires
        x.len() == u.len(),
    ensures
        lex_lt(x + y, u + v) == (lex_lt(x, u) || (x == u && lex_lt(y, v))),
    decreases x.len(),
{
    if x.len() == 0 {
        assert(x + y =~= y);
        assert(u + v =~= v);
        assert(x =~= u);
    } else {
        assert((x + y)[0] == x[0]);
        assert((u + v)[0] == u[0]);
        assert((x + y).drop_first() =~= x.drop_first() + y);
        assert((u + v).drop_first() =~= u.drop_first() + v);
        lemma_lex_concat(x.drop_first(), y, u.drop_first(), v);
        if x[0] == u[0] {
            if x.drop_first() == u.drop_first() {
                assert forall|i: int| 0 <= i < x.len() implies x[i] == u[i] by {
                    if i > 0 {
                        assert(x[i] == x.drop_first()[i - 1]);
                        assert(u[i] == u.drop_first()[i - 1]);
                    }
                }
                assert(x =~= u);
            }
            if x == u {
                assert(x.drop_first() =~= u.drop_first());
            }
        } else {
            assert(x != u);
        }
    }
}

proof fn lemma_padded3_order(m: nat, n: nat)
    requires
        m < 1000,
        n < 1000,
    ensures
        crate::text::padded(m, 3).len() == 3,
        lex_lt(crate::text::padded(m, 3), crate::text::padded(n, 3)) == (m < n),
        (crate::text::padded(m, 3) == crate::text::padded(n, 3)) == (m == n),
{
    lemma_padded3(m);
    lemma_padded3(n);
    reveal_with_fuel(lex_lt, 4);
    let a = crate::text::padded(m, 3);
    let b = crate::text::padded(n, 3);
    let (a0, a1, a2) = (m / 100, (m / 10) % 10, m % 10);
    let (b0, b1, b2) = (n / 100, (n / 10) % 10, n % 10);
    assert(m == 100 * a0 + 10 * a1 + a2);
    assert(n == 100 * b0 + 10 * b1 + b2);
    assert(a0 < 10 && b0 < 10);
    assert(crate::text::digit_char(a0) as u32 == a0 + 0x30);
    assert(crate::text::digit_char(a1) as u32 == a1 + 0x30);
    assert(crate::text::digit_char(a2) as u32 == a2 + 0x30);
    assert(crate::text::digit_char(b0) as u32 == b0 + 0x30);
    assert(crate::text::digit_char(b1) as u32 == b1 + 0x30);
    assert(crate::text::digit_char(b2) as u32 == b2 + 0x30);
    assert(a.drop_first() =~= seq![a[1], a[2]]);
    assert(b.drop_first() =~= seq![b[1], b[2]]);
    assert(a.drop_first().drop_first() =~= seq![a[2]]);
    assert(b.drop_first().drop_first() =~= seq![b[2]]);
    assert(seq![a[2]].drop_first() =~= Seq::<char>::empty());
    assert(seq![b[2]].drop_first() =~= Seq::<char>::empty());
    if a == b {
        assert(a[0] == b[0] && a[1] == b[1] && a[2] == b[2]);
    }
    if m == n {
        assert(a =~= b);
    }
}

/// Version keys order versions number by number: for versions whose three
/// leading numbers are below 1000, one key comes before the other exactly
/// when the first version's numbers come first.
pub proof fn law_version_keys_order(a: Seq<char>, b: Seq<char>)
    requires
        small_version(a),
        small_version(b),
    ensures
        lex_lt(ver_key_spec(a), ver_key_spec(b)) == parts_lt(a, b),
{
    let (a0, a1, a2) = (ver_part(a, 0), ver_part(a, 1), ver_part(a, 2));
    let (b0, b1, b2) = (ver_part(b, 0), ver_part(b, 1), ver_part(b, 2));
    lemma_padded3_order(a0, b0);
    lemma_padded3_order(a1, b1);
    lemma_padded3_order(a2, b2);
    lemma_padded3_order(b0, a0);
    lemma_padded3_order(b1, a1);
    let pa0 = crate::text::padded(a0, 3);
    let pa1 = crate::text::padded(a1, 3);
    let pa2 = crate::text::padded(a2, 3);
    let pb0 = crate::text::padded(b0, 3);
    let pb1 = crate::text::padded(b1, 3);
    let pb2 = crate::text::padded(b2, 3);
    lemma_lex_concat(pa0, pa1 + pa2, pb0, pb1 + pb2);
    lemma_lex_concat(pa1, pa2, pb1, pb2);
    assert(ver_key_spec(a) =~= pa0 + (pa1 + pa2));
    assert(ver_key_spec(b) =~= pb0 + (pb1 + pb2));
}

/// aria2 is outdated exactly when its version's numbers come before the
/// latest release's (with `release-` and a leading `n` stripped), for
/// versions whose numbers are below 1000.
pub proof fn law_aria2_outdated_by_numbers(installed: Seq<char>, latest: Seq<char>)
    requires
        small_version(first_word(installed)),
        small_version(aria2_latest_ver(latest)),
    ensures
        aria2_outdated_spec(installed, latest) == parts_lt(
            first_word(installed),
            aria2_latest_ver(latest),
        ),
{
    law_version_keys_order(first_word(installed), aria2_latest_ver(latest));
}

/// ffmpeg is outdated exactly when the numbers of its installed version
/// come before those of the latest release, for versions whose numbers are
/// below 1000.
pub proof fn law_ffmpeg_outdated_by_numbers(installed: Seq<char>, latest: Seq<char>)
    requires
        ffmpeg_installed_from(installed, 0) is Some,
        ffmpeg_latest_from(latest, 0) is Some,
        small_version(ffmpeg_installed_from(installed, 0).unwrap()),
        small_version(ffmpeg_latest_from(latest, 0).unwrap()),
    ensures
        ffmpeg_outdated_spec(installed, latest) == parts_lt(
            ffmpeg_installed_from(installed, 0).unwrap(),
            ffmpeg_latest_from(latest, 0).unwrap(),
        ),
{
    law_version_keys_order(
        ffmpeg_installed_from(installed, 0).unwrap(),
        ffmpeg_latest_from(latest, 0).unwrap(),
    );
}

} // verus!
