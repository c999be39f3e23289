//! The library organiser: reading a release file name as a movie or a TV
//! episode, naming destinations, and telling organised files apart.
use vstd::prelude::*;
use crate::text::{
    all_ascii_digits, all_chars, chars_of, collapse, collapse_whitespace, copy_chars, decimal_digit,
    is_ascii_alnum, is_control, is_decimal_digit, join, join_chars, lemma_words_shape, lower,
    parse_unsigned, parse_unsigned_exec, slice, space, split_whitespace, string_of, to_lower,
    single_spaced, trim, trim_chars, views, words, TrimSet,
};
use crate::paths::{
    components, components_exec, extension, extension_exec, file_name_of, file_name_of_exec,
    file_stem, file_stem_exec, join_path, join_path_exec, parent_of, path_starts_with,
    path_starts_with_exec, same_path, same_path_exec,
};
use crate::config::{Config, category_dir_spec};
use crate::store::{Task, TaskType, opt_view, clone_opt};
use crate::text::{
    lemma_has_char_concat, trim_end, trim_start,
    chars_eq, concat, contains, contains_chars, has_char, has_prefix, lit, padded, padded_exec,
    decimal, decimal_exec, starts_with, trimmed, contains_char, append_chars,
};

verus! {

// ---------------------------------------------------------------------------
// Parsed file names
// ---------------------------------------------------------------------------

/// What a release file name says about its content.
#[derive(Debug, Clone, PartialEq, Eq)]
pub enum Parsed {
    Movie { title: String, year: u16 },
    Tv { show: String, season: u32, episode: u32 },
}

/// The mathematical content of a [`Parsed`].
pub enum ParsedView {
    Movie { title: Seq<char>, year: u16 },
    Tv { show: Seq<char>, season: u32, episode: u32 },
}

impl View for Parsed {
    type V = ParsedView;

    open spec fn view(&self) -> ParsedView {
        match self {
            Parsed::Movie { title, year } => ParsedView::Movie { title: title@, year: *year },
            Parsed::Tv { show, season, episode } => ParsedView::Tv {
                show: show@,
                season: *season,
                episode: *episode,
            },
        }
    }
}

// ---------------------------------------------------------------------------
// The episode marker `(?i)S(\d{1,2})E(\d{1,2})`
// ---------------------------------------------------------------------------

/// The letters a case-insensitive `S` matches: `S`, `s` and `ſ` (U+017F).
pub open spec fn is_s_letter(c: char) -> bool {
    c == 'S' || c == 's' || (c as u32) == 0x17F
}

/// The letters a case-insensitive `E` matches.
pub open spec fn is_e_letter(c: char) -> bool {
    c == 'E' || c == 'e'
}

pub open spec fn dd_at(s: Seq<char>, i: int) -> bool {
    0 <= i < s.len() && is_decimal_digit(s[i])
}

/// The number of season digits of an episode marker at `i`, if one starts
/// there.
pub open spec fn tv_season_len(s: Seq<char>, i: int) -> Option<int> {
    if !(0 <= i < s.len() && is_s_letter(s[i])) {
        None
    } else if dd_at(s, i + 1) && dd_at(s, i + 2) && i + 3 < s.len() && is_e_letter(s[i + 3]) {
        Some(2)
    } else if dd_at(s, i + 1) && i + 2 < s.len() && is_e_letter(s[i + 2]) {
        Some(1)
    } else {
        None
    }
}

/// The digit counts `(season, episode)` of an episode marker starting at `i`.
pub open spec fn tv_at(s: Seq<char>, i: int) -> Option<(int, int)> {
    match tv_season_len(s, i) {
        Some(k1) => {
            let j = i + k1 + 2;
            if dd_at(s, j) {
                if dd_at(s, j + 1) {
                    Some((k1, 2))
                } else {
                    Some((k1, 1))
                }
            } else {
                None
            }
        },
        None => None,
    }
}

/// The leftmost episode marker at or after `i`.
pub open spec fn first_tv_from(s: Seq<char>, i: int) -> Option<int>
    decreases s.len() - i,
{
    if i < 0 || i >= s.len() {
        None
    } else if tv_at(s, i).is_some() {
        Some(i)
    } else {
        first_tv_from(s, i + 1)
    }
}

fn is_s_letter_exec(c: char) -> (r: bool)
    ensures
        r == is_s_letter(c),
{
    c == 'S' || c == 's' || (c as u32) == 0x17F
}

fn dd_at_exec(s: &Vec<char>, i: usize) -> (r: bool)
    ensures
        r == dd_at(s@, i as int),
{
    i < s.len() && decimal_digit(s[i])
}

fn tv_at_exec(s: &Vec<char>, i: usize) -> (r: Option<(usize, usize)>)
    requires
        i < s.len(),
    ensures
        match tv_at(s@, i as int) {
            Some((a, b)) => r == Some((a as usize, b as usize)),
            None => r.is_none(),
        },
{
    if !is_s_letter_exec(s[i]) {
        return None;
    }
    let k1: usize = if dd_at_exec(s, i + 1) && dd_at_exec(s, i + 2) && i + 3 < s.len() && (s[i
        + 3] == 'E' || s[i + 3] == 'e') {
        2
    } else if dd_at_exec(s, i + 1) && i + 2 < s.len() && (s[i + 2] == 'E' || s[i + 2] == 'e') {
        1
    } else {
        return None;
    };
    let j = i + k1 + 2;
    if dd_at_exec(s, j) {
        if dd_at_exec(s, j + 1) {
            Some((k1, 2))
        } else {
            Some((k1, 1))
        }
    } else {
        None
    }
}

fn first_tv_exec(s: &Vec<char>) -> (r: Option<usize>)
    ensures
        match first_tv_from(s@, 0) {
            Some(i) => r == Some(i as usize),
            None => r.is_none(),
        },
{
    let mut i: usize = 0;
    while i < s.len()
        invariant
            i <= s.len(),
            first_tv_from(s@, 0) == first_tv_from(s@, i as int),
        decreases s.len() - i,
    {
        if tv_at_exec(s, i).is_some() {
            return Some(i);
        }
        i = i + 1;
    }
    None
}

// ---------------------------------------------------------------------------
// Years `(?:19|20)\d{2}` standing on their own
// ---------------------------------------------------------------------------

/// A year-like match `19dd` or `20dd` starts at `i`.
pub open spec fn year_at(s: Seq<char>, i: int) -> bool {
    0 <= i && i + 4 <= s.len() && ((s[i] == '1' && s[i + 1] == '9') || (s[i] == '2' && s[i + 1]
        == '0')) && is_decimal_digit(s[i + 2]) && is_decimal_digit(s[i + 3])
}

/// The leftmost year-like match at or after `i`.
pub open spec fn next_year_from(s: Seq<char>, i: int) -> Option<int>
    decreases s.len() - i,
{
    if i < 0 || i + 4 > s.len() {
        None
    } else if year_at(s, i) {
        Some(i)
    } else {
        next_year_from(s, i + 1)
    }
}

/// The match at `i` is not glued to other ASCII digits.
pub open spec fn year_isolated(s: Seq<char>, i: int) -> bool {
    (i == 0 || !('0' <= s[i - 1] && s[i - 1] <= '9')) && (i + 4 == s.len() || !('0' <= s[i + 4]
        && s[i + 4] <= '9'))
}

/// Walks the successive non-overlapping year-like matches from `i`; the first
/// isolated one decides: its index and value, or nothing when it does not
/// read as a number.
pub open spec fn find_year_from(s: Seq<char>, i: int) -> Option<(int, nat)>
    decreases s.len() - i,
{
    if i < 0 || i > s.len() {
        None
    } else {
        match next_year_from(s, i) {
            None => None,
            Some(m) => if year_isolated(s, m) {
                match parse_unsigned(s.subrange(m, m + 4), 0xFFFF) {
                    Some(v) => Some((m, v)),
                    None => None,
                }
            } else {
                proof {
                    lemma_next_year_bounds(s, i);
                }
                find_year_from(s, m + 4)
            },
        }
    }
}

pub proof fn lemma_next_year_bounds(s: Seq<char>, i: int)
    ensures
        next_year_from(s, i) matches Some(m) ==> i <= m && year_at(s, m),
    decreases s.len() - i,
{
    if !(i < 0 || i + 4 > s.len()) && !year_at(s, i) {
        lemma_next_year_bounds(s, i + 1);
    }
}

fn year_at_exec(s: &Vec<char>, i: usize) -> (r: bool)
    ensures
        r == year_at(s@, i as int),
{
    if i > s.len() || s.len() - i < 4 {
        return false;
    }
    ((s[i] == '1' && s[i + 1] == '9') || (s[i] == '2' && s[i + 1] == '0')) && decimal_digit(
        s[i + 2],
    ) && decimal_digit(s[i + 3])
}

fn next_year_exec(s: &Vec<char>, from: usize) -> (r: Option<usize>)
    requires
        from <= s.len(),
    ensures
        match next_year_from(s@, from as int) {
            Some(m) => r == Some(m as usize),
            None => r.is_none(),
        },
{
    let mut i: usize = from;
    while i < s.len() && s.len() - i >= 4
        invariant
            from <= i <= s.len(),
            next_year_from(s@, from as int) == next_year_from(s@, i as int),
        decreases s.len() - i,
    {
        if year_at_exec(s, i) {
            return Some(i);
        }
        i = i + 1;
    }
    None
}

/// The first stand-alone year in `s`: its index (in characters) and value.
pub fn find_year(s: &Vec<char>) -> (r: Option<(usize, u16)>)
    ensures
        match find_year_from(s@, 0) {
            Some((i, v)) => r == Some((i as usize, v as u16)),
            None => r.is_none(),
        },
{
    let mut pos: usize = 0;
    while pos <= s.len()
        invariant
            pos <= s.len(),
            find_year_from(s@, 0) == find_year_from(s@, pos as int),
        decreases s.len() + 1 - pos,
    {
        match next_year_exec(s, pos) {
            None => {
                return None;
            },
            Some(m) => {
                proof {
                    lemma_next_year_bounds(s@, pos as int);
                }
                let before_ok = m == 0 || !('0' <= s[m - 1] && s[m - 1] <= '9');
                let after_ok = m + 4 == s.len() || !('0' <= s[m + 4] && s[m + 4] <= '9');
                if before_ok && after_ok {
                    let digits = slice(s, m, m + 4);
                    match parse_unsigned_exec(&digits, 0xFFFF) {
                        Some(v) => {
                            return Some((m, v as u16));
                        },
                        None => {
                            return None;
                        },
                    }
                }
                pos = m + 4;
            },
        }
    }
    None
}

// ---------------------------------------------------------------------------
// Titles
// ---------------------------------------------------------------------------

/// Dots and underscores read as spaces.
pub open spec fn dots_to_spaces(s: Seq<char>) -> Seq<char> {
    s.map_values(|c: char| if c == '.' || c == '_' { ' ' } else { c })
}

/// The words with their edge `-`, `.`, `_` removed, dropping those left empty.
pub open spec fn title_words(ws: Seq<Seq<char>>) -> Seq<Seq<char>>
    decreases ws.len(),
{
    if ws.len() == 0 {
        Seq::empty()
    } else {
        let r = title_words(ws.drop_last());
        let t = trim(ws.last(), TrimSet::DashDotUnderscore);
        if t.len() > 0 {
            r.push(t)
        } else {
            r
        }
    }
}

/// The title written before a marker: separators become spaces, words are
/// stripped of edge punctuation and joined with single spaces.
pub open spec fn title_from_prefix_spec(prefix: Seq<char>) -> Seq<char> {
    join(title_words(words(dots_to_spaces(prefix))), space())
}

fn dots_to_spaces_exec(s: &Vec<char>) -> (r: Vec<char>)
    ensures
        r@ == dots_to_spaces(s@),
{
    let mut out: Vec<char> = Vec::new();
    let mut i: usize = 0;
    while i < s.len()
        invariant
            i <= s.len(),
            out@ == dots_to_spaces(s@.take(i as int)),
        decreases s.len() - i,
    {
        let c = s[i];
        out.push(if c == '.' || c == '_' { ' ' } else { c });
        i = i + 1;
        assert(dots_to_spaces(s@.take(i as int)) =~= dots_to_spaces(s@.take(i - 1)).push(
            if c == '.' || c == '_' { ' ' } else { c },
        ));
    }
    assert(s@.take(s.len() as int) =~= s@);
    out
}

fn title_words_exec(ws: &Vec<Vec<char>>) -> (r: Vec<Vec<char>>)
    ensures
        views(r@) == title_words(views(ws@)),
{
    let mut out: Vec<Vec<char>> = Vec::new();
    let mut i: usize = 0;
    while i < ws.len()
        invariant
            i <= ws.len(),
            views(out@) == title_words(views(ws@).take(i as int)),
        decreases ws.len() - i,
    {
        assert(views(ws@).take(i + 1).drop_last() =~= views(ws@).take(i as int));
        let t = trim_chars(&ws[i], TrimSet::DashDotUnderscore);
        if t.len() > 0 {
            let ghost before = views(out@);
            let ghost tv = t@;
            out.push(t);
            assert(views(out@) =~= before.push(tv));
        }
        i = i + 1;
    }
    assert(views(ws@).take(ws.len() as int) =~= views(ws@));
    out
}

/// The show or movie title written before the episode marker or year.
pub fn title_from_prefix(prefix: &Vec<char>) -> (r: Vec<char>)
    ensures
        r@ == title_from_prefix_spec(prefix@),
{
    let spaced = dots_to_spaces_exec(prefix);
    let ws = split_whitespace(&spaced);
    let kept = title_words_exec(&ws);
    let sp: Vec<char> = vec![' '];
    assert(sp@ =~= space());
    join_chars(&kept, &sp)
}

// ---------------------------------------------------------------------------
// parse_filename
// ---------------------------------------------------------------------------

/// The stem of a file name: `Path::file_stem`, or the name itself when it
/// has none.
pub open spec fn stem_spec(name: Seq<char>) -> Seq<char> {
    match file_stem(name) {
        Some(s) => s,
        None => name,
    }
}

/// The stem of a file name (`Path::file_stem`, falling back to the name).
pub fn stem_of(name: &str) -> (r: String)
    ensures
        r@ == stem_spec(name@),
{
    let n = chars_of(name);
    match file_stem_exec(&n) {
        Some(s) => string_of(&s),
        None => string_of(&n),
    }
}

/// What `parse_filename` reads from a file name.
pub open spec fn parse_filename_spec(name: Seq<char>) -> Option<ParsedView> {
    let stem = stem_spec(name);
    if stem.len() == 0 {
        None
    } else {
        match first_tv_from(stem, 0) {
            Some(i) => {
                let (k1, k2) = tv_at(stem, i).unwrap();
                let season = parse_unsigned(stem.subrange(i + 1, i + 1 + k1), 0xFFFF_FFFF);
                let episode = parse_unsigned(
                    stem.subrange(i + 2 + k1, i + 2 + k1 + k2),
                    0xFFFF_FFFF,
                );
                let show = title_from_prefix_spec(stem.take(i));
                if season.is_none() || episode.is_none() || show.len() == 0 {
                    None
                } else {
                    Some(
                        ParsedView::Tv {
                            show,
                            season: season.unwrap() as u32,
                            episode: episode.unwrap() as u32,
                        },
                    )
                }
            },
            None => match find_year_from(stem, 0) {
                Some((i, y)) => {
                    let title = title_from_prefix_spec(stem.take(i));
                    if title.len() == 0 {
                        None
                    } else {
                        Some(ParsedView::Movie { title, year: y as u16 })
                    }
                },
                None => None,
            },
        }
    }
}

proof fn lemma_first_tv_bounds(s: Seq<char>, i: int)
    ensures
        first_tv_from(s, i) matches Some(m) ==> i <= m < s.len() && tv_at(s, m).is_some(),
    decreases s.len() - i,
{
    if !(i < 0 || i >= s.len()) && !tv_at(s, i).is_some() {
        lemma_first_tv_bounds(s, i + 1);
    }
}

proof fn lemma_find_year_bounds(s: Seq<char>, i: int)
    ensures
        find_year_from(s, i) matches Some((m, v)) ==> 0 <= m && m + 4 <= s.len() && v <= 0xFFFF,
    decreases s.len() - i,
{
    if !(i < 0 || i > s.len()) {
        lemma_next_year_bounds(s, i);
        match next_year_from(s, i) {
            Some(m) => {
                if !year_isolated(s, m) {
                    lemma_find_year_bounds(s, m + 4);
                }
            },
            None => {},
        }
    }
}

/// Reads a release file name as a TV episode (an `SxxEyy` marker after the
/// show name) or, failing that, as a movie (a stand-alone year after the
/// title).
pub fn parse_filename(name: &str) -> (r: Option<Parsed>)
    ensures
        match parse_filename_spec(name@) {
            Some(p) => r.is_some() && r.unwrap()@ == p,
            None => r.is_none(),
        },
{
    let stem_s = stem_of(name);
    let stem = chars_of(stem_s.as_str());
    if stem.len() == 0 {
        return None;
    }
    proof {
        lemma_first_tv_bounds(stem@, 0);
        lemma_find_year_bounds(stem@, 0);
    }
    match first_tv_exec(&stem) {
        Some(i) => {
            let (k1, k2) = tv_at_exec(&stem, i).unwrap();
            let g1 = slice(&stem, i + 1, i + 1 + k1);
            let g2 = slice(&stem, i + 2 + k1, i + 2 + k1 + k2);
            let season = match parse_unsigned_exec(&g1, 0xFFFF_FFFF) {
                Some(v) => v as u32,
                None => {
                    return None;
                },
            };
            let episode = match parse_unsigned_exec(&g2, 0xFFFF_FFFF) {
                Some(v) => v as u32,
                None => {
                    return None;
                },
            };
            let prefix = slice(&stem, 0, i);
            let show = title_from_prefix(&prefix);
            if show.len() == 0 {
                return None;
            }
            Some(Parsed::Tv { show: string_of(&show), season, episode })
        },
        None => match find_year(&stem) {
            Some((i, year)) => {
                let prefix = slice(&stem, 0, i);
                let title = title_from_prefix(&prefix);
                if title.len() == 0 {
                    return None;
                }
                Some(Parsed::Movie { title: string_of(&title), year })
            },
            None => None,
        },
    }
}

// ---------------------------------------------------------------------------
// normalise_title and sanitize_name
// ---------------------------------------------------------------------------

/// Each `'&'` spelled out as `"and"`.
pub open spec fn expand_amp(s: Seq<char>) -> Seq<char>
    decreases s.len(),
{
    if s.len() == 0 {
        Seq::empty()
    } else {
        expand_amp(s.drop_last()) + (if s.last() == '&' {
            seq!['a', 'n', 'd']
        } else {
            seq![s.last()]
        })
    }
}

/// Everything but ASCII letters and digits read as a space.
pub open spec fn alnum_or_space(s: Seq<char>) -> Seq<char> {
    s.map_values(|c: char| if is_ascii_alnum(c) { c } else { ' ' })
}

/// The form in which titles are compared: lower case, `&` as "and", runs of
/// anything else than ASCII letters and digits collapsed to single spaces.
pub open spec fn normalise_title_spec(s: Seq<char>) -> Seq<char> {
    collapse(alnum_or_space(expand_amp(lower(s))))
}

fn expand_amp_exec(s: &Vec<char>) -> (r: Vec<char>)
    ensures
        r@ == expand_amp(s@),
{
    let mut out: Vec<char> = Vec::new();
    let mut i: usize = 0;
    while i < s.len()
        invariant
            i <= s.len(),
            out@ == expand_amp(s@.take(i as int)),
        decreases s.len() - i,
    {
        let c = s[i];
        assert(s@.take(i + 1).drop_last() =~= s@.take(i as int));
        let ghost before = out@;
        if c == '&' {
            out.push('a');
            out.push('n');
            out.push('d');
            assert(out@ =~= before + seq!['a', 'n', 'd']);
        } else {
            out.push(c);
            assert(out@ =~= before + seq![c]);
        }
        i = i + 1;
    }
    assert(s@.take(s.len() as int) =~= s@);
    out
}

fn alnum_or_space_exec(s: &Vec<char>) -> (r: Vec<char>)
    ensures
        r@ == alnum_or_space(s@),
{
    let mut out: Vec<char> = Vec::new();
    let mut i: usize = 0;
    while i < s.len()
        invariant
            i <= s.len(),
            out@ == alnum_or_space(s@.take(i as int)),
        decreases s.len() - i,
    {
        let c = s[i];
        let d = if crate::text::ascii_alnum(c) { c } else { ' ' };
        out.push(d);
        i = i + 1;
        assert(alnum_or_space(s@.take(i as int)) =~= alnum_or_space(s@.take(i - 1)).push(d));
    }
    assert(s@.take(s.len() as int) =~= s@);
    out
}

/// The form in which titles are compared: lower case, `&` as "and", and
/// anything else than ASCII letters and digits as single spaces.
pub fn normalise_title(s: &str) -> (r: String)
    ensures
        r@ == normalise_title_spec(s@),
{
    let v = chars_of(s);
    let l = to_lower(&v);
    let e = expand_amp_exec(&l);
    let a = alnum_or_space_exec(&e);
    let c = collapse_whitespace(&a);
    string_of(&c)
}

/// Characters that cannot stand in a file name on common file systems.
pub open spec fn is_forbidden_in_name(c: char) -> bool {
    c == ':' || c == '*' || c == '?' || c == '"' || c == '<' || c == '>' || c == '|' || c == '/'
        || c == '\\' || is_control(c)
}

pub open spec fn underscore_forbidden(s: Seq<char>) -> Seq<char> {
    s.map_values(|c: char| if is_forbidden_in_name(c) { '_' } else { c })
}

/// A title made safe as a file or folder name.
pub open spec fn sanitize_name_spec(s: Seq<char>) -> Seq<char> {
    trim(trim(collapse(underscore_forbidden(s)), TrimSet::Dots), TrimSet::WhiteSpace)
}

fn forbidden_exec(c: char) -> (r: bool)
    ensures
        r == is_forbidden_in_name(c),
{
    c == ':' || c == '*' || c == '?' || c == '"' || c == '<' || c == '>' || c == '|' || c == '/'
        || c == '\\' || crate::text::control(c)
}

pub fn underscore_forbidden_exec(s: &Vec<char>) -> (r: Vec<char>)
    ensures
        r@ == underscore_forbidden(s@),
{
    let mut out: Vec<char> = Vec::new();
    let mut i: usize = 0;
    while i < s.len()
        invariant
            i <= s.len(),
            out@ == underscore_forbidden(s@.take(i as int)),
        decreases s.len() - i,
    {
        let c = s[i];
        let d = if forbidden_exec(c) { '_' } else { c };
        out.push(d);
        i = i + 1;
        assert(underscore_forbidden(s@.take(i as int)) =~= underscore_forbidden(
            s@.take(i - 1),
        ).push(d));
    }
    assert(s@.take(s.len() as int) =~= s@);
    out
}

/// A title made safe as a file or folder name: forbidden and control
/// characters become `_`, white space collapses to single spaces, and edge
/// dots and spaces are removed.
pub fn sanitize_name(s: &str) -> (r: String)
    ensures
        r@ == sanitize_name_spec(s@),
{
    let v = chars_of(s);
    let m = underscore_forbidden_exec(&v);
    let c = collapse_whitespace(&m);
    let d = trim_chars(&c, TrimSet::Dots);
    let t = trim_chars(&d, TrimSet::WhiteSpace);
    string_of(&t)
}

// ---------------------------------------------------------------------------
// Organiser state and results
// ---------------------------------------------------------------------------

/// Whether the organiser runs: it is enabled and has a TMDB key.
pub open spec fn is_active_spec(cfg: Config) -> bool {
    cfg.organize_enabled && trim(cfg.tmdb_api_key@, TrimSet::WhiteSpace).len() > 0
}

/// Whether the organiser runs: it is enabled and has a TMDB key.
pub fn is_active(cfg: &Config) -> (r: bool)
    ensures
        r == is_active_spec(*cfg),
{
    cfg.organize_enabled && trimmed(cfg.tmdb_api_key.as_str()).len() > 0
}

/// Why a library scan could not run.
#[derive(Debug, Clone, Copy, PartialEq, Eq, Structural)]
pub enum ScanError {
    Disabled,
    NoTmdbKey,
}

impl ScanError {
    pub fn message(&self) -> (r: &'static str)
        ensures
            r@ == (match self {
                ScanError::Disabled => "library organiser is disabled"@,
                ScanError::NoTmdbKey => "TMDB API key is not set"@,
            }),
    {
        match self {
            ScanError::Disabled => "library organiser is disabled",
            ScanError::NoTmdbKey => "TMDB API key is not set",
        }
    }
}

/// Why a scan may not run with these settings, if it may not.
pub fn check_active(cfg: &Config) -> (r: Option<ScanError>)
    ensures
        r == (if !cfg.organize_enabled {
            Some(ScanError::Disabled)
        } else if trim(cfg.tmdb_api_key@, TrimSet::WhiteSpace).len() == 0 {
            Some(ScanError::NoTmdbKey)
        } else {
            None
        }),
{
    if !cfg.organize_enabled {
        return Some(ScanError::Disabled);
    }
    if trimmed(cfg.tmdb_api_key.as_str()).len() == 0 {
        return Some(ScanError::NoTmdbKey);
    }
    None
}

/// One file the organiser looked at.
#[derive(Debug, Clone)]
pub struct ScanItem {
    pub from: String,
    pub to: Option<String>,
    pub reason: Option<String>,
    pub action: String,
}

/// The outcome of organising a set of files.
#[derive(Debug, Clone)]
pub struct ScanResult {
    pub moved: u32,
    pub skipped: u32,
    pub dry_run: bool,
    pub items: Vec<ScanItem>,
}

/// The outcome of the last scan, as reported by the status API.
#[derive(Debug, Clone)]
pub struct LastResult {
    pub moved: u32,
    pub skipped: u32,
    pub items: Vec<ScanItem>,
}

/// What the status API reports about the organiser.
#[derive(Debug, Clone)]
pub struct LibraryStatus {
    pub enabled: bool,
    pub last_scan_at: Option<String>,
    pub last_result: Option<LastResult>,
}

/// The record of a file left where it is, for `reason`.
pub fn skip_item(from: String, reason: &str) -> (r: ScanItem)
    ensures
        r.from@ == from@,
        r.to.is_none(),
        opt_view(r.reason) == Some(reason@),
        r.action@ == "skipped"@,
{
    ScanItem { from, to: None, reason: Some(string_of(&chars_of(reason))), action: "skipped".to_string() }
}

/// The record of a file moved (or, in a dry run, to be moved) to `to`.
pub fn moved_item(from: String, to: String) -> (r: ScanItem)
    ensures
        r.from@ == from@,
        opt_view(r.to) == Some(to@),
        r.reason.is_none(),
        r.action@ == "moved"@,
{
    ScanItem { from, to: Some(to), reason: None, action: "moved".to_string() }
}

/// The decision on a file whose destination is known: left alone when the
/// destination is the file itself (`already_organised`) or already exists
/// (`exists`); in a dry run recorded as moved without moving it; otherwise
/// nothing yet, and the caller moves it.
pub fn decide_move(from: String, dest: String, same: bool, exists: bool, dry_run: bool) -> (r:
    Option<ScanItem>)
    ensures
        same ==> (r matches Some(i) && i.from@ == from@ && i.to.is_none() && opt_view(i.reason)
            == Some("already_organised"@) && i.action@ == "skipped"@),
        !same && exists ==> (r matches Some(i) && i.from@ == from@ && i.to.is_none() && opt_view(
            i.reason,
        ) == Some("exists"@) && i.action@ == "skipped"@),
        !same && !exists && dry_run ==> (r matches Some(i) && i.from@ == from@ && opt_view(i.to)
            == Some(dest@) && i.reason.is_none() && i.action@ == "moved"@),
        !same && !exists && !dry_run ==> r.is_none(),
{
    if same {
        Some(skip_item(from, "already_organised"))
    } else if exists {
        Some(skip_item(from, "exists"))
    } else if dry_run {
        Some(moved_item(from, dest))
    } else {
        None
    }
}

/// How many items were moved.
pub open spec fn count_moved(items: Seq<ScanItem>) -> nat
    decreases items.len(),
{
    if items.len() == 0 {
        0
    } else {
        count_moved(items.drop_last()) + if items.last().action@ == "moved"@ {
            1nat
        } else {
            0nat
        }
    }
}

/// The tally of a scan: items marked `"moved"` count as moved, all others
/// as skipped.
pub fn tally(items: Vec<ScanItem>, dry_run: bool) -> (r: ScanResult)
    requires
        items@.len() <= 0xFFFF_FFFF,
    ensures
        r.items@ == items@,
        r.dry_run == dry_run,
        r.moved as nat == count_moved(items@),
        r.moved + r.skipped == items@.len(),
{
    let mut moved: u32 = 0;
    let mut skipped: u32 = 0;
    let mut i: usize = 0;
    let moved_lit = lit("moved");
    while i < items.len()
        invariant
            i <= items.len(),
            items@.len() <= 0xFFFF_FFFF,
            moved_lit@ == "moved"@,
            moved as nat == count_moved(items@.take(i as int)),
            moved + skipped == i,
        decreases items.len() - i,
    {
        assert(items@.take(i + 1).drop_last() =~= items@.take(i as int));
        let a = chars_of(items[i].action.as_str());
        if chars_eq(&a, &moved_lit) {
            moved = moved + 1;
        } else {
            skipped = skipped + 1;
        }
        i = i + 1;
    }
    assert(items@.take(items.len() as int) =~= items@);
    ScanResult { moved, skipped, dry_run, items }
}

/// Whether Jellyfin should be asked to rescan after a scan.
pub open spec fn refresh_after_scan_spec(r: ScanResult) -> bool {
    r.moved != 0 && !r.dry_run
}

pub fn refresh_after_scan(r: &ScanResult) -> (b: bool)
    ensures
        b == refresh_after_scan_spec(*r),
{
    r.moved != 0 && !r.dry_run
}

/// Whether Jellyfin should be asked to rescan after a task completes: when
/// the organiser is off, always; when it is on, only if it moved files for
/// real.
pub fn refresh_after_task(cfg: &Config, r: &ScanResult) -> (b: bool)
    ensures
        b == (if is_active_spec(*cfg) {
            r.moved > 0 && !r.dry_run
        } else {
            true
        }),
{
    if is_active(cfg) {
        r.moved > 0 && !r.dry_run
    } else {
        true
    }
}

/// The Jellyfin refresh URL to call, if one is set and not blank.
pub fn jellyfin_refresh_target(cfg: &Config) -> (r: Option<String>)
    ensures
        opt_view(r) == (match cfg.jellyfin_refresh_url {
            Some(u) => if trim(u@, TrimSet::WhiteSpace).len() > 0 {
                Some(u@)
            } else {
                None
            },
            None => None,
        }),
{
    match &cfg.jellyfin_refresh_url {
        Some(u) => if trimmed(u.as_str()).len() > 0 {
            Some(u.clone())
        } else {
            None
        },
        None => None,
    }
}

// ---------------------------------------------------------------------------
// Video files and organised layouts
// ---------------------------------------------------------------------------

/// The extensions of the video files the organiser handles.
pub open spec fn is_video_ext(e: Seq<char>) -> bool {
    let l = lower(e);
    l == "mkv"@ || l == "mp4"@ || l == "m4v"@ || l == "avi"@ || l == "webm"@
}

pub open spec fn is_video_path_spec(p: Seq<char>) -> bool {
    match extension(p) {
        Some(e) => is_video_ext(e),
        None => false,
    }
}

/// Whether a path names a video file, by its extension (any case).
pub fn is_video_path(path: &str) -> (r: bool)
    ensures
        r == is_video_path_spec(path@),
{
    let p = chars_of(path);
    match extension_exec(&p) {
        Some(e) => {
            let l = to_lower(&e);
            chars_eq(&l, &lit("mkv")) || chars_eq(&l, &lit("mp4")) || chars_eq(&l, &lit("m4v"))
                || chars_eq(&l, &lit("avi")) || chars_eq(&l, &lit("webm"))
        },
        None => false,
    }
}

/// The path with `suffix` appended to its text.
pub fn path_with_suffix(path: &str, suffix: &str) -> (r: String)
    ensures
        r@ == path@ + suffix@,
{
    string_of(&concat(&chars_of(path), &chars_of(suffix)))
}

/// The text of a path with its extension set to `ext` (`Path::with_extension`).
pub uninterp spec fn path_with_extension(p: Seq<char>, ext: Seq<char>) -> Seq<char>;

/// `std::path::Path::with_extension`, as text.  The result is named, not
/// stated.  `with_extension` panics when the extension holds a path
/// separator (`/` here), so such an extension is left out.
#[verifier::external_body]
fn with_extension_text(p: &str, ext: &str) -> (r: String)
    requires
        !has_char(ext@, '/'),
    ensures
        r@ == path_with_extension(p@, ext@),
{
    std::path::Path::new(p).with_extension(ext).to_string_lossy().into_owned()
}

/// The files whose presence shows that a download into `path` is not
/// finished: aria2's control file, and yt-dlp's partial files (the name
/// with `.part` added, and with its extension replaced by `part`).
pub fn incomplete_markers(path: &str) -> (r: Vec<String>)
    ensures
        r@.len() == 3,
        r@[0]@ == path@ + ".aria2"@,
        r@[1]@ == path@ + ".part"@,
        r@[2]@ == path_with_extension(path@, "part"@),
{
    let mut r: Vec<String> = Vec::new();
    r.push(path_with_suffix(path, ".aria2"));
    r.push(path_with_suffix(path, ".part"));
    let ext = "part";
    proof {
        reveal_strlit("part");
        if has_char(ext@, '/') {
            let i = choose|i: int| 0 <= i < ext@.len() && ext@[i] == '/';
        }
    }
    r.push(with_extension_text(path, ext));
    r
}

/// No line feed in `s` (what a regular expression's `.` needs).
pub open spec fn no_newline(s: Seq<char>) -> bool {
    !has_char(s, '\n')
}

/// `^.+ \(\d{4}\)$`: a name followed by a four-digit year in brackets.
pub open spec fn title_year_shape(s: Seq<char>) -> bool {
    let n = s.len() as int;
    &&& n >= 8
    &&& no_newline(s.take(n - 7))
    &&& s[n - 7] == ' ' && s[n - 6] == '('
    &&& is_decimal_digit(s[n - 5]) && is_decimal_digit(s[n - 4]) && is_decimal_digit(s[n - 3])
        && is_decimal_digit(s[n - 2])
    &&& s[n - 1] == ')'
}

/// `^Season \d{2}$`.
pub open spec fn season_dir_shape(s: Seq<char>) -> bool {
    s.len() == 9 && s.take(7) == "Season "@ && is_decimal_digit(s[7]) && is_decimal_digit(s[8])
}

/// ` - SddEdd - ` at `i` (letters in either case).
pub open spec fn episode_marker_at(s: Seq<char>, i: int) -> bool {
    &&& 0 <= i && i + 12 <= s.len()
    &&& s[i] == ' ' && s[i + 1] == '-' && s[i + 2] == ' '
    &&& is_s_letter(s[i + 3])
    &&& is_decimal_digit(s[i + 4]) && is_decimal_digit(s[i + 5])
    &&& is_e_letter(s[i + 6])
    &&& is_decimal_digit(s[i + 7]) && is_decimal_digit(s[i + 8])
    &&& s[i + 9] == ' ' && s[i + 10] == '-' && s[i + 11] == ' '
}

/// `(?i)^.+ - S\d{2}E\d{2} - .+$`: show, episode marker, episode title.
pub open spec fn episode_file_shape(s: Seq<char>) -> bool {
    no_newline(s) && exists|i: int| 1 <= i && i + 13 <= s.len() && episode_marker_at(s, i)
}

fn no_newline_exec(s: &Vec<char>, hi: usize) -> (r: bool)
    requires
        hi <= s.len(),
    ensures
        r == no_newline(s@.take(hi as int)),
{
    let t = slice(s, 0, hi);
    assert(t@ =~= s@.take(hi as int));
    !contains_char(&t, '\n')
}

pub fn title_year_shape_exec(s: &Vec<char>) -> (r: bool)
    ensures
        r == title_year_shape(s@),
{
    let n = s.len();
    if n < 8 {
        return false;
    }
    no_newline_exec(s, n - 7) && s[n - 7] == ' ' && s[n - 6] == '(' && decimal_digit(s[n - 5])
        && decimal_digit(s[n - 4]) && decimal_digit(s[n - 3]) && decimal_digit(s[n - 2])
        && s[n - 1] == ')'
}

pub fn season_dir_shape_exec(s: &Vec<char>) -> (r: bool)
    ensures
        r == season_dir_shape(s@),
{
    if s.len() != 9 {
        return false;
    }
    let head = slice(s, 0, 7);
    assert(head@ =~= s@.take(7));
    chars_eq(&head, &lit("Season ")) && decimal_digit(s[7]) && decimal_digit(s[8])
}

fn episode_marker_at_exec(s: &Vec<char>, i: usize) -> (r: bool)
    ensures
        r == episode_marker_at(s@, i as int),
{
    if i > s.len() || s.len() - i < 12 {
        return false;
    }
    s[i] == ' ' && s[i + 1] == '-' && s[i + 2] == ' ' && is_s_letter_exec(s[i + 3])
        && decimal_digit(s[i + 4]) && decimal_digit(s[i + 5]) && (s[i + 6] == 'E' || s[i + 6]
        == 'e') && decimal_digit(s[i + 7]) && decimal_digit(s[i + 8]) && s[i + 9] == ' ' && s[i
        + 10] == '-' && s[i + 11] == ' '
}

pub fn episode_file_shape_exec(s: &Vec<char>) -> (r: bool)
    ensures
        r == episode_file_shape(s@),
{
    if contains_char(s, '\n') {
        return false;
    }
    let mut i: usize = 1;
    while i < s.len() && s.len() - i >= 13
        invariant
            1 <= i <= s.len() + 1,
            no_newline(s@),
            forall|j: int| 1 <= j < i ==> !episode_marker_at(s@, j),
        decreases s.len() + 1 - i,
    {
        if episode_marker_at_exec(s, i) {
            assert(1 <= i && i + 13 <= s@.len() && episode_marker_at(s@, i as int));
            return true;
        }
        i = i + 1;
    }
    proof {
        assert forall|j: int| 1 <= j && j + 13 <= s@.len() implies !episode_marker_at(s@, j) by {
            if j >= i {
                assert(false);
            }
        }
    }
    false
}

/// `path` is `<movies_dir>/<Title (Year)>/<Title (Year)>.<ext>`.
pub open spec fn looks_organised_movie_spec(path: Seq<char>, movies_dir: Seq<char>) -> bool {
    let c = components(path);
    match parent_of(c) {
        None => false,
        Some(parent) => {
            &&& parent_of(parent) == Some(components(movies_dir))
            &&& match (file_name_of(parent), file_stem(path)) {
                (Some(folder), Some(stem)) => folder == stem && title_year_shape(folder),
                _ => false,
            }
        },
    }
}

/// `path` is `<tv_dir>/<Show (Year)>/Season NN/<Show - SxxEyy - Title>.<ext>`.
pub open spec fn looks_organised_tv_spec(path: Seq<char>, tv_dir: Seq<char>) -> bool {
    let c = components(path);
    match parent_of(c) {
        None => false,
        Some(season) => match parent_of(season) {
            None => false,
            Some(show) => {
                &&& parent_of(show) == Some(components(tv_dir))
                &&& match (file_name_of(season), file_name_of(show), file_stem(path)) {
                    (Some(sn), Some(shn), Some(stem)) => season_dir_shape(sn) && title_year_shape(
                        shn,
                    ) && episode_file_shape(stem),
                    _ => false,
                }
            },
        },
    }
}

fn parent_exec(c: &Vec<Vec<char>>) -> (r: Option<Vec<Vec<char>>>)
    ensures
        match parent_of(views(c@)) {
            Some(p) => r.is_some() && views(r.unwrap()@) == p,
            None => r.is_none(),
        },
{
    if c.len() == 0 {
        return None;
    }
    let last = &c[c.len() - 1];
    let root: Vec<char> = vec!['/'];
    assert(root@ =~= seq!['/']);
    if chars_eq(last, &root) {
        return None;
    }
    let mut out: Vec<Vec<char>> = Vec::new();
    let mut i: usize = 0;
    while i + 1 < c.len()
        invariant
            i + 1 <= c.len(),
            views(out@) == views(c@).take(i as int),
        decreases c.len() - i,
    {
        let ghost before = views(out@);
        let w = copy_chars(&c[i]);
        out.push(w);
        assert(views(out@) =~= before.push(views(c@)[i as int]));
        i = i + 1;
        assert(views(out@) =~= views(c@).take(i as int));
    }
    assert(views(c@).take(i as int) =~= views(c@).drop_last());
    Some(out)
}

/// Whether a movie file already sits where the organiser puts movies.
pub fn looks_organised_movie(path: &str, movies_dir: &str) -> (r: bool)
    ensures
        r == looks_organised_movie_spec(path@, movies_dir@),
{
    let p = chars_of(path);
    let c = components_exec(&p);
    let parent = match parent_exec(&c) {
        Some(x) => x,
        None => {
            return false;
        },
    };
    let md = components_exec(&chars_of(movies_dir));
    match parent_exec(&parent) {
        Some(pp) => {
            if !crate::paths::comps_eq(&pp, &md) {
                return false;
            }
        },
        None => {
            return false;
        },
    }
    let folder = match file_name_of_exec(&parent) {
        Some(f) => f,
        None => {
            return false;
        },
    };
    let stem = match file_stem_exec(&p) {
        Some(s) => s,
        None => {
            return false;
        },
    };
    chars_eq(&folder, &stem) && title_year_shape_exec(&folder)
}

/// Whether an episode file already sits where the organiser puts episodes.
pub fn looks_organised_tv(path: &str, tv_dir: &str) -> (r: bool)
    ensures
        r == looks_organised_tv_spec(path@, tv_dir@),
{
    let p = chars_of(path);
    let c = components_exec(&p);
    let season = match parent_exec(&c) {
        Some(x) => x,
        None => {
            return false;
        },
    };
    let show = match parent_exec(&season) {
        Some(x) => x,
        None => {
            return false;
        },
    };
    let td = components_exec(&chars_of(tv_dir));
    match parent_exec(&show) {
        Some(pp) => {
            if !crate::paths::comps_eq(&pp, &td) {
                return false;
            }
        },
        None => {
            return false;
        },
    }
    let sn = match file_name_of_exec(&season) {
        Some(f) => f,
        None => {
            return false;
        },
    };
    let shn = match file_name_of_exec(&show) {
        Some(f) => f,
        None => {
            return false;
        },
    };
    let stem = match file_stem_exec(&p) {
        Some(s) => s,
        None => {
            return false;
        },
    };
    season_dir_shape_exec(&sn) && title_year_shape_exec(&shn) && episode_file_shape_exec(&stem)
}

/// The movies directory and the TV directory under the download directory.
pub open spec fn movies_root(cfg: Config) -> Seq<char> {
    join_path(cfg.download_dir@, cfg.organize_movies_dir@)
}

pub open spec fn tv_root(cfg: Config) -> Seq<char> {
    join_path(cfg.download_dir@, cfg.organize_tv_dir@)
}

pub open spec fn looks_organised_spec(path: Seq<char>, cfg: Config) -> bool {
    looks_organised_movie_spec(path, movies_root(cfg)) || looks_organised_tv_spec(
        path,
        tv_root(cfg),
    )
}

/// Whether a file already sits in the organised movie or TV layout.
pub fn looks_organised(path: &str, cfg: &Config) -> (r: bool)
    ensures
        r == looks_organised_spec(path@, *cfg),
{
    let dl = chars_of(cfg.download_dir.as_str());
    let movies = string_of(&join_path_exec(&dl, &chars_of(cfg.organize_movies_dir.as_str())));
    let tv = string_of(&join_path_exec(&dl, &chars_of(cfg.organize_tv_dir.as_str())));
    looks_organised_movie(path, movies.as_str()) || looks_organised_tv(path, tv.as_str())
}

/// The directories a scan walks: the inbox, the movies and the TV
/// directories under the download directory.
pub fn scan_roots(cfg: &Config) -> (r: Vec<String>)
    ensures
        r@.len() == 3,
        r@[0]@ == join_path(cfg.download_dir@, "inbox"@),
        r@[1]@ == movies_root(*cfg),
        r@[2]@ == tv_root(*cfg),
{
    let dl = chars_of(cfg.download_dir.as_str());
    let mut out: Vec<String> = Vec::new();
    out.push(string_of(&join_path_exec(&dl, &lit("inbox"))));
    out.push(string_of(&join_path_exec(&dl, &chars_of(cfg.organize_movies_dir.as_str()))));
    out.push(string_of(&join_path_exec(&dl, &chars_of(cfg.organize_tv_dir.as_str()))));
    out
}

/// The files a scan handles: all found files for a full scan, otherwise
/// those not already in the organised layout, in order.
pub open spec fn scan_selection(files: Seq<String>, cfg: Config, full: bool) -> Seq<String>
    decreases files.len(),
{
    if files.len() == 0 {
        Seq::empty()
    } else {
        let r = scan_selection(files.drop_last(), cfg, full);
        if full || !looks_organised_spec(files.last()@, cfg) {
            r.push(files.last())
        } else {
            r
        }
    }
}

/// Keeps the files a scan handles.
pub fn select_scan_files(files: Vec<String>, cfg: &Config, full: bool) -> (r: Vec<String>)
    ensures
        r@ == scan_selection(files@, *cfg, full),
{
    let mut out: Vec<String> = Vec::new();
    let mut i: usize = 0;
    while i < files.len()
        invariant
            i <= files.len(),
            out@ == scan_selection(files@.take(i as int), *cfg, full),
        decreases files.len() - i,
    {
        assert(files@.take(i + 1).drop_last() =~= files@.take(i as int));
        if full || !looks_organised(files[i].as_str(), cfg) {
            out.push(files[i].clone());
        }
        i = i + 1;
    }
    assert(files@.take(files.len() as int) =~= files@);
    out
}

// ---------------------------------------------------------------------------
// Files that belong to running downloads
// ---------------------------------------------------------------------------

/// A magnet or `.torrent` URL.
pub open spec fn is_bt_url_spec(url: Seq<char>) -> bool {
    let l = lower(trim(url, TrimSet::WhiteSpace));
    has_prefix(l, "magnet:"@) || contains(l, ".torrent"@)
}

pub fn is_bt_url(url: &str) -> (r: bool)
    ensures
        r == is_bt_url_spec(url@),
{
    let l = to_lower(&trimmed(url));
    starts_with(&l, &lit("magnet:")) || contains_chars(&l, &lit(".torrent"))
}

/// The file a task wrote, if its directory and file name are known.
pub open spec fn task_file(t: Task) -> Option<Seq<char>> {
    match (t.save_path, t.filename) {
        (Some(d), Some(n)) => Some(join_path(d@, n@)),
        _ => None,
    }
}

/// The directory all of whose files a BitTorrent task owns.
pub open spec fn task_prefix(t: Task) -> Option<Seq<char>> {
    match t.save_path {
        Some(d) => if is_bt_url_spec(t.url@) {
            Some(d@)
        } else {
            None
        },
        None => None,
    }
}

pub open spec fn opt_seq(o: Option<Seq<char>>) -> Seq<Seq<char>> {
    match o {
        Some(x) => seq![x],
        None => Seq::empty(),
    }
}

/// A task that a skip list covers: not the task being organised, and, for
/// the seeding list, only seeding ones.
pub open spec fn covered(t: Task, current: Option<Seq<char>>, seeding_only: bool) -> bool {
    (!seeding_only || t.seeding) && current != Some(t.id@)
}

pub open spec fn covered_files(ts: Seq<Task>, current: Option<Seq<char>>, seeding_only: bool) -> Seq<
    Seq<char>,
>
    decreases ts.len(),
{
    if ts.len() == 0 {
        Seq::empty()
    } else {
        covered_files(ts.drop_last(), current, seeding_only) + if covered(
            ts.last(),
            current,
            seeding_only,
        ) {
            opt_seq(task_file(ts.last()))
        } else {
            Seq::empty()
        }
    }
}

pub open spec fn covered_prefixes(
    ts: Seq<Task>,
    current: Option<Seq<char>>,
    seeding_only: bool,
) -> Seq<Seq<char>>
    decreases ts.len(),
{
    if ts.len() == 0 {
        Seq::empty()
    } else {
        covered_prefixes(ts.drop_last(), current, seeding_only) + if covered(
            ts.last(),
            current,
            seeding_only,
        ) {
            opt_seq(task_prefix(ts.last()))
        } else {
            Seq::empty()
        }
    }
}

/// The files and directories that running downloads and seeding torrents
/// still use.
#[derive(Debug, Clone)]
pub struct SkipIndex {
    pub downloading_files: Vec<String>,
    pub downloading_prefixes: Vec<String>,
    pub seeding_files: Vec<String>,
    pub seeding_prefixes: Vec<String>,
}

pub open spec fn svs(v: Seq<String>) -> Seq<Seq<char>> {
    v.map_values(|s: String| s@)
}

/// `path` is one of `files` or lies under one of `prefixes`.
pub open spec fn hits(path: Seq<char>, files: Seq<Seq<char>>, prefixes: Seq<Seq<char>>) -> bool {
    (exists|i: int| 0 <= i < files.len() && same_path(files[i], path)) || (exists|i: int|
        0 <= i < prefixes.len() && path_starts_with(path, prefixes[i]))
}

pub open spec fn skip_reason_spec(idx: SkipIndex, path: Seq<char>) -> Option<Seq<char>> {
    if hits(path, svs(idx.downloading_files@), svs(idx.downloading_prefixes@)) {
        Some("downloading"@)
    } else if hits(path, svs(idx.seeding_files@), svs(idx.seeding_prefixes@)) {
        Some("seeding"@)
    } else {
        None
    }
}

fn add_task_paths(t: &Task, files: &mut Vec<String>, prefixes: &mut Vec<String>)
    ensures
        svs(final(files)@) == svs(old(files)@) + opt_seq(task_file(*t)),
        svs(final(prefixes)@) == svs(old(prefixes)@) + opt_seq(task_prefix(*t)),
{
    let ghost f0 = svs(files@);
    let ghost p0 = svs(prefixes@);
    match (&t.save_path, &t.filename) {
        (Some(d), Some(n)) => {
            let j = join_path_exec(&chars_of(d.as_str()), &chars_of(n.as_str()));
            files.push(string_of(&j));
            assert(svs(files@) =~= f0 + opt_seq(task_file(*t)));
        },
        _ => {
            assert(svs(files@) =~= f0 + opt_seq(task_file(*t)));
        },
    }
    if is_bt_url(t.url.as_str()) {
        if let Some(d) = &t.save_path {
            prefixes.push(d.clone());
            assert(svs(prefixes@) =~= p0 + opt_seq(task_prefix(*t)));
            return;
        }
    }
    assert(svs(prefixes@) =~= p0 + opt_seq(task_prefix(*t)));
}

fn collect_paths(
    ts: &Vec<Task>,
    current: Option<&str>,
    seeding_only: bool,
    files: &mut Vec<String>,
    prefixes: &mut Vec<String>,
)
    requires
        old(files)@.len() == 0,
        old(prefixes)@.len() == 0,
    ensures
        svs(final(files)@) == covered_files(ts@, opt_str(current), seeding_only),
        svs(final(prefixes)@) == covered_prefixes(ts@, opt_str(current), seeding_only),
{
    let cur: Option<Vec<char>> = match current {
        Some(c) => Some(chars_of(c)),
        None => None,
    };
    assert(svs(files@) =~= Seq::<Seq<char>>::empty());
    assert(svs(prefixes@) =~= Seq::<Seq<char>>::empty());
    let mut i: usize = 0;
    while i < ts.len()
        invariant
            i <= ts.len(),
            match cur {
                Some(c) => opt_str(current) == Some(c@),
                None => opt_str(current).is_none(),
            },
            svs(files@) == covered_files(ts@.take(i as int), opt_str(current), seeding_only),
            svs(prefixes@) == covered_prefixes(ts@.take(i as int), opt_str(current), seeding_only),
        decreases ts.len() - i,
    {
        let t = &ts[i];
        assert(ts@.take(i + 1).drop_last() =~= ts@.take(i as int));
        let is_current = match &cur {
            Some(c) => chars_eq(c, &chars_of(t.id.as_str())),
            None => false,
        };
        if (!seeding_only || t.seeding) && !is_current {
            add_task_paths(t, files, prefixes);
        } else {
            assert(svs(files@) + Seq::<Seq<char>>::empty() =~= svs(files@));
            assert(svs(prefixes@) + Seq::<Seq<char>>::empty() =~= svs(prefixes@));
        }
        i = i + 1;
    }
    assert(ts@.take(ts.len() as int) =~= ts@);
}

pub open spec fn opt_str(o: Option<&str>) -> Option<Seq<char>> {
    match o {
        Some(s) => Some(s@),
        None => None,
    }
}

impl SkipIndex {
    /// The skip lists built from the active tasks and the completed tasks
    /// (only those still seeding count), leaving out the task being
    /// organised.
    pub fn from_tasks(active: &Vec<Task>, completed: &Vec<Task>, current: Option<&str>) -> (r:
        SkipIndex)
        ensures
            svs(r.downloading_files@) == covered_files(active@, opt_str(current), false),
            svs(r.downloading_prefixes@) == covered_prefixes(active@, opt_str(current), false),
            svs(r.seeding_files@) == covered_files(completed@, opt_str(current), true),
            svs(r.seeding_prefixes@) == covered_prefixes(completed@, opt_str(current), true),
    {
        let mut df: Vec<String> = Vec::new();
        let mut dp: Vec<String> = Vec::new();
        let mut sf: Vec<String> = Vec::new();
        let mut sp: Vec<String> = Vec::new();
        collect_paths(active, current, false, &mut df, &mut dp);
        collect_paths(completed, current, true, &mut sf, &mut sp);
        SkipIndex {
            downloading_files: df,
            downloading_prefixes: dp,
            seeding_files: sf,
            seeding_prefixes: sp,
        }
    }

    /// Why `path` must be left alone, if a running download or a seeding
    /// torrent still uses it.
    pub fn reason(&self, path: &str) -> (r: Option<&'static str>)
        ensures
            match skip_reason_spec(*self, path@) {
                Some(s) => r.is_some() && r.unwrap()@ == s,
                None => r.is_none(),
            },
    {
        let p = chars_of(path);
        if hits_exec(&p, &self.downloading_files, &self.downloading_prefixes) {
            return Some("downloading");
        }
        if hits_exec(&p, &self.seeding_files, &self.seeding_prefixes) {
            return Some("seeding");
        }
        None
    }
}

fn hits_exec(p: &Vec<char>, files: &Vec<String>, prefixes: &Vec<String>) -> (r: bool)
    ensures
        r == hits(p@, svs(files@), svs(prefixes@)),
{
    let mut i: usize = 0;
    while i < files.len()
        invariant
            i <= files.len(),
            forall|j: int| 0 <= j < i ==> !same_path(svs(files@)[j], p@),
        decreases files.len() - i,
    {
        if same_path_exec(&chars_of(files[i].as_str()), p) {
            assert(same_path(svs(files@)[i as int], p@));
            return true;
        }
        i = i + 1;
    }
    let mut k: usize = 0;
    while k < prefixes.len()
        invariant
            k <= prefixes.len(),
            forall|j: int| 0 <= j < files@.len() ==> !same_path(svs(files@)[j], p@),
            forall|j: int| 0 <= j < k ==> !path_starts_with(p@, svs(prefixes@)[j]),
        decreases prefixes.len() - k,
    {
        if path_starts_with_exec(p, &chars_of(prefixes[k].as_str())) {
            assert(path_starts_with(p@, svs(prefixes@)[k as int]));
            return true;
        }
        k = k + 1;
    }
    false
}

/// What is known about whether a task is seeding, or the aria2 download to
/// ask about it.
#[derive(Debug, Clone)]
pub enum SeedingProbe {
    Known(bool),
    AskAria2(String),
}

/// Whether the task being organised is seeding: known from its record, or
/// to be asked of aria2 for a BitTorrent download it still tracks.
pub fn seeding_probe(task: Option<&Task>) -> (r: SeedingProbe)
    ensures
        match task {
            None => r == SeedingProbe::Known(false),
            Some(t) => if t.seeding {
                r == SeedingProbe::Known(true)
            } else if t.task_type != TaskType::Aria2 || !is_bt_url_spec(t.url@) {
                r == SeedingProbe::Known(false)
            } else {
                match t.backend_gid {
                    None => r == SeedingProbe::Known(false),
                    Some(g) => (r matches SeedingProbe::AskAria2(q) && q@ == g@),
                }
            },
        },
{
    match task {
        None => SeedingProbe::Known(false),
        Some(t) => {
            if t.seeding {
                return SeedingProbe::Known(true);
            }
            if t.task_type != TaskType::Aria2 || !is_bt_url(t.url.as_str()) {
                return SeedingProbe::Known(false);
            }
            match &t.backend_gid {
                None => SeedingProbe::Known(false),
                Some(g) => SeedingProbe::AskAria2(g.clone()),
            }
        },
    }
}

/// The file a finished task is expected to have written.
pub fn fallback_task_file(task: &Task) -> (r: Option<String>)
    ensures
        opt_view(r) == task_file(*task),
{
    match (&task.save_path, &task.filename) {
        (Some(d), Some(n)) => Some(
            string_of(&join_path_exec(&chars_of(d.as_str()), &chars_of(n.as_str()))),
        ),
        _ => None,
    }
}

// ---------------------------------------------------------------------------
// Deciding whether a file is to be moved
// ---------------------------------------------------------------------------

/// The file name of a path, or nothing.
pub open spec fn name_or_empty(p: Seq<char>) -> Seq<char> {
    match crate::paths::file_name(p) {
        Some(n) => n,
        None => Seq::empty(),
    }
}

/// Why a found file is left alone before its name is read, if it is: it is
/// gone, not a video, a sample, still being written, or in use by a
/// download or a seeding torrent.
pub open spec fn precheck_spec(
    path: Seq<char>,
    is_file: bool,
    incomplete: bool,
    skips: SkipIndex,
) -> Option<Seq<char>> {
    if !is_file {
        Some("missing"@)
    } else if !is_video_path_spec(path) {
        Some("not_video"@)
    } else if contains(lower(name_or_empty(path)), "sample"@) {
        Some("sample"@)
    } else if incomplete {
        Some("incomplete"@)
    } else {
        skip_reason_spec(skips, path)
    }
}

/// Why a found file is left alone before its name is read, if it is.
/// `is_file` says whether it is a regular file, `incomplete` whether a
/// `.aria2` or `.part` file stands beside it.
pub fn precheck(path: &str, is_file: bool, incomplete: bool, skips: &SkipIndex) -> (r: Option<
    &'static str,
>)
    ensures
        match precheck_spec(path@, is_file, incomplete, *skips) {
            Some(s) => r.is_some() && r.unwrap()@ == s,
            None => r.is_none(),
        },
{
    if !is_file {
        return Some("missing");
    }
    if !is_video_path(path) {
        return Some("not_video");
    }
    let p = chars_of(path);
    let name = match crate::paths::file_name_exec(&p) {
        Some(n) => n,
        None => Vec::new(),
    };
    if contains_chars(&to_lower(&name), &lit("sample")) {
        return Some("sample");
    }
    if incomplete {
        return Some("incomplete");
    }
    skips.reason(path)
}

/// What the name of a file to be moved says, or why it stays: a seeding
/// torrent's file stays, and so does one whose name reads as nothing.
pub fn read_name_for_move(path: &str, seeding: bool) -> (r: Result<Parsed, &'static str>)
    ensures
        seeding ==> (r matches Err(e) && e@ == "seeding"@),
        !seeding ==> match parse_filename_spec(name_or_empty(path@)) {
            Some(p) => (r matches Ok(q) && q@ == p),
            None => (r matches Err(e) && e@ == "unparsed"@),
        },
{
    if seeding {
        return Err("seeding");
    }
    let p = chars_of(path);
    let name = match crate::paths::file_name_exec(&p) {
        Some(n) => n,
        None => Vec::new(),
    };
    let ns = string_of(&name);
    match parse_filename(ns.as_str()) {
        Some(x) => Ok(x),
        None => Err("unparsed"),
    }
}

// ---------------------------------------------------------------------------
// TMDB answers
// ---------------------------------------------------------------------------

/// One search result as TMDB returned it: its id if it is an integer, and
/// its title and date fields if they are strings.
#[derive(Debug, Clone)]
pub struct TmdbCandidate {
    pub id: Option<i64>,
    pub title: Option<String>,
    pub date: Option<String>,
}

/// A title TMDB knows.
#[derive(Debug, Clone)]
pub struct TmdbTitle {
    pub id: i64,
    pub title: String,
    pub year: Option<u16>,
}

/// The video files of a task: those aria2 reports for it, when it reports
/// any; else the task's own file.
pub open spec fn video_files_of(paths: Seq<Seq<char>>) -> Seq<Seq<char>>
    decreases paths.len(),
{
    if paths.len() == 0 {
        Seq::empty()
    } else if is_video_path_spec(paths.last()) {
        video_files_of(paths.drop_last()).push(paths.last())
    } else {
        video_files_of(paths.drop_last())
    }
}

pub fn task_files(task: &Task, reported: &Option<Vec<String>>) -> (r: Vec<String>)
    ensures
        ({
            let vids = match *reported {
                Some(v) => video_files_of(crate::config::strings_view(v@)),
                None => Seq::<Seq<char>>::empty(),
            };
            if vids.len() > 0 {
                crate::config::strings_view(r@) == vids
            } else {
                crate::config::strings_view(r@) == match task_file(*task) {
                    Some(f) => seq![f],
                    None => Seq::<Seq<char>>::empty(),
                }
            }
        }),
{
    let mut out: Vec<String> = Vec::new();
    match reported {
        Some(v) => {
            let ghost sv = crate::config::strings_view(v@);
            let mut i: usize = 0;
            while i < v.len()
                invariant
                    i <= v@.len(),
                    sv == crate::config::strings_view(v@),
                    crate::config::strings_view(out@) == video_files_of(sv.take(i as int)),
                decreases v.len() - i,
            {
                assert(sv.take(i + 1).drop_last() =~= sv.take(i as int));
                assert(sv.take(i + 1).last() == v@[i as int]@);
                if is_video_path(v[i].as_str()) {
                    let ghost before = out@;
                    out.push(v[i].clone());
                    assert(crate::config::strings_view(out@) =~= crate::config::strings_view(
                        before,
                    ).push(v@[i as int]@));
                }
                i = i + 1;
            }
            assert(sv.take(v.len() as int) =~= sv);
        },
        None => {},
    }
    if out.len() > 0 {
        return out;
    }
    match fallback_task_file(task) {
        Some(f) => {
            let ghost fv = f@;
            let mut r: Vec<String> = Vec::new();
            r.push(f);
            assert(crate::config::strings_view(r@) =~= seq![fv]);
            r
        },
        None => {
            assert(crate::config::strings_view(out@) =~= Seq::<Seq<char>>::empty());
            out
        },
    }
}

/// The subtitle files (`.srt`, then `.ass`) that follow a moved video:
/// each sibling of the source with that extension, and where it goes
/// beside the destination; none when either path lacks a stem or a parent.
pub fn sidecar_moves(src: &str, dest: &str) -> (r: Vec<(String, String)>)
    ensures
        match (
            file_stem(src@),
            crate::paths::path_parent(src@),
            file_stem(dest@),
            crate::paths::path_parent(dest@),
        ) {
            (Some(ss), Some(sp), Some(ds), Some(dp)) => {
                &&& r@.len() == 2
                &&& r@[0].0@ == join_path(sp, ss + ".srt"@)
                &&& r@[0].1@ == join_path(dp, ds + ".srt"@)
                &&& r@[1].0@ == join_path(sp, ss + ".ass"@)
                &&& r@[1].1@ == join_path(dp, ds + ".ass"@)
            },
            _ => r@.len() == 0,
        },
{
    let mut r: Vec<(String, String)> = Vec::new();
    let ss = match file_stem_exec(&chars_of(src)) {
        Some(x) => x,
        None => {
            return r;
        },
    };
    let sp = match crate::paths::parent_text(src) {
        Some(x) => chars_of(x.as_str()),
        None => {
            return r;
        },
    };
    let ds = match file_stem_exec(&chars_of(dest)) {
        Some(x) => x,
        None => {
            return r;
        },
    };
    let dp = match crate::paths::parent_text(dest) {
        Some(x) => chars_of(x.as_str()),
        None => {
            return r;
        },
    };
    let from_srt = join_path_exec(&sp, &concat(&ss, &lit(".srt")));
    let to_srt = join_path_exec(&dp, &concat(&ds, &lit(".srt")));
    let from_ass = join_path_exec(&sp, &concat(&ss, &lit(".ass")));
    let to_ass = join_path_exec(&dp, &concat(&ds, &lit(".ass")));
    r.push((string_of(&from_srt), string_of(&to_srt)));
    r.push((string_of(&from_ass), string_of(&to_ass)));
    r
}

/// An episode's title from TMDB's answer: missing or blank means the
/// episode is not found.
pub fn episode_title_from(name: &Option<String>) -> (r: Result<String, &'static str>)
    ensures
        match *name {
            Some(n) => if trim(n@, TrimSet::WhiteSpace).len() == 0 {
                r matches Err(e) && e@ == "episode_not_found"@
            } else {
                r matches Ok(t) && t@ == n@
            },
            None => r matches Err(e) && e@ == "episode_not_found"@,
        },
{
    match name {
        Some(n) => {
            if trimmed(n.as_str()).len() == 0 {
                Err("episode_not_found")
            } else {
                Ok(n.clone())
            }
        },
        None => Err("episode_not_found"),
    }
}

/// The year at the start of a TMDB date (`"2020-01-31"`).
pub open spec fn year_from_date_spec(s: Seq<char>) -> Option<u16> {
    if s.len() >= 4 {
        match parse_unsigned(s.take(4), 0xFFFF) {
            Some(v) => Some(v as u16),
            None => None,
        }
    } else {
        None
    }
}

/// The year at the start of a TMDB date.
pub fn year_from_date(s: &str) -> (r: Option<u16>)
    ensures
        r == year_from_date_spec(s@),
{
    let v = chars_of(s);
    if v.len() < 4 {
        return None;
    }
    let head = slice(&v, 0, 4);
    assert(head@ =~= v@.take(4));
    match parse_unsigned_exec(&head, 0xFFFF) {
        Some(y) => Some(y as u16),
        None => None,
    }
}

pub open spec fn hit_of(c: TmdbCandidate) -> Option<(i64, Seq<char>, Option<u16>)> {
    match (c.id, c.title) {
        (Some(id), Some(t)) => Some(
            (
                id,
                t@,
                match c.date {
                    Some(d) => year_from_date_spec(d@),
                    None => None,
                },
            ),
        ),
        _ => None,
    }
}

/// The title to use from a TMDB search: a lone result is taken as it is;
/// among several, the first is taken only when its title matches the query
/// (once normalised) and, for movies, its year matches.
pub open spec fn pick_tmdb_spec(
    results: Seq<TmdbCandidate>,
    query: Seq<char>,
    year: Option<u16>,
) -> Result<(i64, Seq<char>, Option<u16>), Seq<char>> {
    if results.len() == 0 {
        Err("no_tmdb_match"@)
    } else if results.len() == 1 {
        match hit_of(results[0]) {
            Some(h) => Ok(h),
            None => Err("no_tmdb_match"@),
        }
    } else {
        match hit_of(results[0]) {
            None => Err("ambiguous"@),
            Some(h) => if normalise_title_spec(h.1) != normalise_title_spec(query) {
                Err("ambiguous"@)
            } else if year.is_some() && h.2 != year {
                Err("ambiguous"@)
            } else {
                Ok(h)
            },
        }
    }
}

fn hit_of_exec(c: &TmdbCandidate) -> (r: Option<TmdbTitle>)
    ensures
        match hit_of(*c) {
            Some(h) => r.is_some() && (r.unwrap().id, r.unwrap().title@, r.unwrap().year) == h,
            None => r.is_none(),
        },
{
    match (c.id, &c.title) {
        (Some(id), Some(t)) => {
            let year = match &c.date {
                Some(d) => year_from_date(d.as_str()),
                None => None,
            };
            Some(TmdbTitle { id, title: t.clone(), year })
        },
        _ => None,
    }
}

/// Picks the title to use from TMDB search results.
pub fn pick_tmdb_result(results: &Vec<TmdbCandidate>, query: &str, year: Option<u16>) -> (r:
    Result<TmdbTitle, &'static str>)
    ensures
        match r {
            Ok(h) => pick_tmdb_spec(results@, query@, year) == Ok::<
                (i64, Seq<char>, Option<u16>),
                Seq<char>,
            >((h.id, h.title@, h.year)),
            Err(e) => pick_tmdb_spec(results@, query@, year) == Err::<
                (i64, Seq<char>, Option<u16>),
                Seq<char>,
            >(e@),
        },
{
    if results.len() == 0 {
        return Err("no_tmdb_match");
    }
    if results.len() == 1 {
        return match hit_of_exec(&results[0]) {
            Some(h) => Ok(h),
            None => Err("no_tmdb_match"),
        };
    }
    let first = match hit_of_exec(&results[0]) {
        Some(h) => h,
        None => {
            return Err("ambiguous");
        },
    };
    let a = normalise_title(first.title.as_str());
    let b = normalise_title(query);
    if !chars_eq(&chars_of(a.as_str()), &chars_of(b.as_str())) {
        return Err("ambiguous");
    }
    if let Some(y) = year {
        if first.year != Some(y) {
            return Err("ambiguous");
        }
    }
    Ok(first)
}

// ---------------------------------------------------------------------------
// Destinations
// ---------------------------------------------------------------------------

/// The source file's extension with its dot, or nothing.
pub open spec fn dest_ext_spec(src: Seq<char>) -> Seq<char> {
    match extension(src) {
        Some(e) => seq!['.'] + e,
        None => Seq::empty(),
    }
}

pub fn dest_ext(src: &Vec<char>) -> (r: Vec<char>)
    ensures
        r@ == dest_ext_spec(src@),
{
    match extension_exec(src) {
        Some(e) => {
            let dot: Vec<char> = vec!['.'];
            assert(dot@ =~= seq!['.']);
            concat(&dot, &e)
        },
        None => Vec::new(),
    }
}

/// `"<title> (<year>)"`.
pub open spec fn titled_folder(title: Seq<char>, year: nat) -> Seq<char> {
    title + " ("@ + decimal(year) + ")"@
}

fn titled_folder_exec(title: &Vec<char>, year: u64) -> (r: Vec<char>)
    ensures
        r@ == titled_folder(title@, year as nat),
{
    let a = concat(title, &lit(" ("));
    let b = concat(&a, &decimal_exec(year));
    concat(&b, &lit(")"))
}

/// Where a movie goes: `<movies>/<Title (Year)>/<Title (Year)><ext>`, named
/// after the TMDB title and its year (or the year read from the file name).
pub open spec fn movie_dest_spec(
    cfg: Config,
    hit_title: Seq<char>,
    hit_year: Option<u16>,
    parsed_year: u16,
    src: Seq<char>,
) -> Result<Seq<char>, Seq<char>> {
    let title = sanitize_name_spec(hit_title);
    if title.len() == 0 {
        Err("no_tmdb_match"@)
    } else {
        let y = match hit_year {
            Some(y) => y,
            None => parsed_year,
        };
        let folder = titled_folder(title, y as nat);
        Ok(join_path(join_path(movies_root(cfg), folder), folder + dest_ext_spec(src)))
    }
}

/// Where a movie goes, given the TMDB title picked for it.
pub fn movie_destination(cfg: &Config, hit: &TmdbTitle, parsed_year: u16, src: &str) -> (r:
    Result<String, &'static str>)
    ensures
        match r {
            Ok(p) => movie_dest_spec(*cfg, hit.title@, hit.year, parsed_year, src@) == Ok::<
                Seq<char>,
                Seq<char>,
            >(p@),
            Err(e) => movie_dest_spec(*cfg, hit.title@, hit.year, parsed_year, src@) == Err::<
                Seq<char>,
                Seq<char>,
            >(e@),
        },
{
    let title = chars_of(sanitize_name(hit.title.as_str()).as_str());
    if title.len() == 0 {
        return Err("no_tmdb_match");
    }
    let y: u16 = match hit.year {
        Some(y) => y,
        None => parsed_year,
    };
    let folder = titled_folder_exec(&title, y as u64);
    let root = join_path_exec(
        &chars_of(cfg.download_dir.as_str()),
        &chars_of(cfg.organize_movies_dir.as_str()),
    );
    let dir = join_path_exec(&root, &folder);
    let file = concat(&folder, &dest_ext(&chars_of(src)));
    Ok(string_of(&join_path_exec(&dir, &file)))
}

/// `"Season NN"`.
pub open spec fn season_folder(season: u32) -> Seq<char> {
    "Season "@ + padded(season as nat, 2)
}

/// `"<show> - SxxEyy - <episode title><ext>"`.
pub open spec fn episode_file_name(
    show: Seq<char>,
    season: u32,
    episode: u32,
    ep: Seq<char>,
    ext: Seq<char>,
) -> Seq<char> {
    show + " - S"@ + padded(season as nat, 2) + "E"@ + padded(episode as nat, 2) + " - "@ + ep
        + ext
}

/// Where an episode goes:
/// `<tv>/<Show (Year)>/Season NN/<Show - SxxEyy - Title><ext>`.
pub open spec fn tv_dest_spec(
    cfg: Config,
    hit_title: Seq<char>,
    hit_year: Option<u16>,
    episode_title: Seq<char>,
    season: u32,
    episode: u32,
    src: Seq<char>,
) -> Result<Seq<char>, Seq<char>> {
    let show = sanitize_name_spec(hit_title);
    let ep = sanitize_name_spec(episode_title);
    if show.len() == 0 || ep.len() == 0 {
        Err("no_tmdb_match"@)
    } else {
        match hit_year {
            None => Err("no_year"@),
            Some(y) => Ok(
                join_path(
                    join_path(
                        join_path(tv_root(cfg), titled_folder(show, y as nat)),
                        season_folder(season),
                    ),
                    episode_file_name(show, season, episode, ep, dest_ext_spec(src)),
                ),
            ),
        }
    }
}

/// Where an episode goes, given the TMDB show and episode title.
pub fn tv_destination(
    cfg: &Config,
    hit: &TmdbTitle,
    episode_title: &str,
    season: u32,
    episode: u32,
    src: &str,
) -> (r: Result<String, &'static str>)
    ensures
        match r {
            Ok(p) => tv_dest_spec(*cfg, hit.title@, hit.year, episode_title@, season, episode, src@)
                == Ok::<Seq<char>, Seq<char>>(p@),
            Err(e) => tv_dest_spec(
                *cfg,
                hit.title@,
                hit.year,
                episode_title@,
                season,
                episode,
                src@,
            ) == Err::<Seq<char>, Seq<char>>(e@),
        },
{
    let show = chars_of(sanitize_name(hit.title.as_str()).as_str());
    let ep = chars_of(sanitize_name(episode_title).as_str());
    if show.len() == 0 || ep.len() == 0 {
        return Err("no_tmdb_match");
    }
    let y = match hit.year {
        Some(y) => y,
        None => {
            return Err("no_year");
        },
    };
    let show_folder = titled_folder_exec(&show, y as u64);
    let season_dir = concat(&lit("Season "), &padded_exec(season as u64, 2));
    let s2 = padded_exec(season as u64, 2);
    let e2 = padded_exec(episode as u64, 2);
    let mut name = concat(&show, &lit(" - S"));
    append_chars(&mut name, &s2);
    append_chars(&mut name, &lit("E"));
    append_chars(&mut name, &e2);
    append_chars(&mut name, &lit(" - "));
    append_chars(&mut name, &ep);
    append_chars(&mut name, &dest_ext(&chars_of(src)));
    let root = join_path_exec(
        &chars_of(cfg.download_dir.as_str()),
        &chars_of(cfg.organize_tv_dir.as_str()),
    );
    let d1 = join_path_exec(&root, &show_folder);
    let d2 = join_path_exec(&d1, &season_dir);
    Ok(string_of(&join_path_exec(&d2, &name)))
}


// ---------------------------------------------------------------------------
// Filed destinations are recognised as organised
// ---------------------------------------------------------------------------

/// No separator and no line feed.
pub open spec fn plain_name(s: Seq<char>) -> bool {
    !has_char(s, '/') && !has_char(s, '\n')
}

proof fn lemma_plain_drop(s: Seq<char>)
    requires
        plain_name(s),
        s.len() > 0,
    ensures
        plain_name(s.drop_first()),
        plain_name(s.drop_last()),
{
    lemma_has_char_concat(seq![s[0]], s.drop_first(), '/');
    lemma_has_char_concat(seq![s[0]], s.drop_first(), '\n');
    assert(seq![s[0]] + s.drop_first() =~= s);
    lemma_has_char_concat(s.drop_last(), seq![s.last()], '/');
    lemma_has_char_concat(s.drop_last(), seq![s.last()], '\n');
    assert(s.drop_last() + seq![s.last()] =~= s);
}

proof fn lemma_trim_plain(s: Seq<char>, k: TrimSet)
    requires
        plain_name(s),
    ensures
        plain_name(trim_start(s, k)),
        plain_name(trim_end(s, k)),
    decreases s.len(),
{
    if s.len() > 0 {
        lemma_plain_drop(s);
        lemma_trim_plain(s.drop_first(), k);
        lemma_trim_plain(s.drop_last(), k);
    }
}

proof fn lemma_words_scan_no_slash(s: Seq<char>)
    requires
        !has_char(s, '/'),
    ensures
        !has_char(crate::text::words_scan(s).1, '/'),
        forall|i: int|
            0 <= i < crate::text::words_scan(s).0.len() ==> !has_char(
                #[trigger] crate::text::words_scan(s).0[i],
                '/',
            ),
    decreases s.len(),
{
    if s.len() > 0 {
        lemma_has_char_concat(s.drop_last(), seq![s.last()], '/');
        assert(s.drop_last() + seq![s.last()] =~= s);
        lemma_words_scan_no_slash(s.drop_last());
        let (d, c) = crate::text::words_scan(s.drop_last());
        lemma_has_char_concat(c, seq![s.last()], '/');
        assert(c + seq![s.last()] =~= c.push(s.last()));
        assert(s.last() != '/') by {
            assert(!has_char(seq![s.last()], '/') ==> seq![s.last()][0] != '/');
        }
        assert(!has_char(seq![s.last()], '/')) by {
            if has_char(seq![s.last()], '/') {
                let i = choose|i: int| 0 <= i < 1 && seq![s.last()][i] == '/';
            }
        }
        assert forall|i: int| 0 <= i < d.push(c).len() implies !has_char(#[trigger] d.push(c)[i], '/') by {
            if i < d.len() {
                assert(d.push(c)[i] == d[i]);
            }
        }
    }
}

proof fn lemma_join_plain(v: Seq<Seq<char>>)
    requires
        forall|i: int| 0 <= i < v.len() ==> plain_name(#[trigger] v[i]),
    ensures
        plain_name(join(v, space())),
    decreases v.len(),
{
    if v.len() == 1 {
        assert(plain_name(v[0]));
    } else if v.len() > 1 {
        assert forall|i: int| 0 <= i < v.drop_last().len() implies plain_name(#[trigger] v.drop_last()[i]) by {
            assert(v.drop_last()[i] == v[i]);
        }
        lemma_join_plain(v.drop_last());
        let a = join(v.drop_last(), space());
        assert(plain_name(v.last())) by {
            assert(v[v.len() - 1] == v.last());
        }
        assert(plain_name(space())) by {
            if has_char(space(), '/') || has_char(space(), '\n') {
                let i = choose|i: int| 0 <= i < space().len() && (space()[i] == '/' || space()[i] == '\n');
                assert(space()[0] == ' ');
            }
        }
        lemma_has_char_concat(a, space(), '/');
        lemma_has_char_concat(a, space(), '\n');
        lemma_has_char_concat(a + space(), v.last(), '/');
        lemma_has_char_concat(a + space(), v.last(), '\n');
    }
}

/// A sanitised name holds no separator and no line feed.
pub proof fn lemma_sanitized_plain(s: Seq<char>)
    ensures
        plain_name(sanitize_name_spec(s)),
{
    let u = underscore_forbidden(s);
    assert(!has_char(u, '/')) by {
        if has_char(u, '/') {
            let i = choose|i: int| 0 <= i < u.len() && u[i] == '/';
            assert(u[i] == (if is_forbidden_in_name(s[i]) { '_' } else { s[i] }));
        }
    }
    lemma_words_scan_no_slash(u);
    crate::text::lemma_words_shape(u);
    let w = words(u);
    let (d, c) = crate::text::words_scan(u);
    assert forall|i: int| 0 <= i < w.len() implies plain_name(#[trigger] w[i]) by {
        if c.len() > 0 && i == d.len() {
            assert(w[i] == c);
        } else {
            assert(w[i] == d[i]);
        }
        assert(crate::text::word_ok(w[i]));
        if has_char(w[i], '\n') {
            let j = choose|j: int| 0 <= j < w[i].len() && w[i][j] == '\n';
            assert(crate::text::is_white_space(w[i][j]));
        }
    }
    lemma_join_plain(w);
    let t1 = collapse(u);
    lemma_trim_plain(t1, TrimSet::Dots);
    lemma_trim_plain(trim_start(t1, TrimSet::Dots), TrimSet::Dots);
    let t2 = trim(t1, TrimSet::Dots);
    lemma_trim_plain(t2, TrimSet::WhiteSpace);
    lemma_trim_plain(trim_start(t2, TrimSet::WhiteSpace), TrimSet::WhiteSpace);
}

proof fn lemma_four_digits(y: nat)
    requires
        1000 <= y <= 9999,
    ensures
        decimal(y).len() == 4,
        forall|i: int| 0 <= i < 4 ==> crate::text::is_ascii_digit(#[trigger] decimal(y)[i]),
{
    crate::text::lemma_decimal_len(y);
    crate::text::lemma_decimal_digits(y);
}

proof fn lemma_two_digits(n: nat)
    requires
        n <= 99,
    ensures
        padded(n, 2).len() == 2,
        forall|i: int| 0 <= i < 2 ==> crate::text::is_ascii_digit(#[trigger] padded(n, 2)[i]),
{
    crate::text::lemma_decimal_len(n);
    crate::text::lemma_decimal_digits(n);
    let d = decimal(n);
    if d.len() < 2 {
        assert(padded(n, 2) =~= seq!['0'] + d);
        assert(padded(n, 2)[1] == d[0]);
    }
}

/// A titled folder for a plain name and a four-digit year has the shape
/// `Name (YYYY)`, and names one component.
proof fn lemma_titled_folder(t: Seq<char>, y: nat)
    requires
        t.len() > 0,
        plain_name(t),
        1000 <= y <= 9999,
    ensures
        title_year_shape(titled_folder(t, y)),
        crate::paths::single_name(titled_folder(t, y)),
        crate::paths::is_normal(titled_folder(t, y)),
        plain_name(titled_folder(t, y)),
        titled_folder(t, y).len() >= 8,
{
    reveal_strlit(" (");
    reveal_strlit(")");
    lemma_four_digits(y);
    let f = titled_folder(t, y);
    let tail = " ("@ + decimal(y) + ")"@;
    assert(f =~= t + tail);
    let n = f.len() as int;
    assert(n == t.len() + 7);
    assert(f.take(n - 7) =~= t);
    assert(f[n - 7] == ' ');
    assert(f[n - 6] == '(');
    assert(f[n - 5] == decimal(y)[0]);
    assert(f[n - 4] == decimal(y)[1]);
    assert(f[n - 3] == decimal(y)[2]);
    assert(f[n - 2] == decimal(y)[3]);
    assert(f[n - 1] == ')');
    assert(is_decimal_digit(decimal(y)[0]) && is_decimal_digit(decimal(y)[1]) && is_decimal_digit(
        decimal(y)[2],
    ) && is_decimal_digit(decimal(y)[3]));
    assert(plain_name(tail)) by {
        if has_char(tail, '/') || has_char(tail, '\n') {
            let i = choose|i: int| 0 <= i < tail.len() && (tail[i] == '/' || tail[i] == '\n');
            if 2 <= i < 6 {
                assert(crate::text::is_ascii_digit(decimal(y)[i - 2]));
            }
        }
    }
    lemma_has_char_concat(t, tail, '/');
    lemma_has_char_concat(t, tail, '\n');
    assert(f != crate::paths::cur_comp());
    assert(f != crate::paths::root_comp());
    assert(f != crate::paths::parent_comp());
}

/// `name.ext` names one component, and its stem is `name`, when `name`
/// is a plain non-empty name and `ext` is a path's extension.
proof fn lemma_named_file(name: Seq<char>, src: Seq<char>)
    requires
        name.len() >= 2,
        plain_name(name),
        extension(src) is Some,
    ensures
        crate::paths::single_name(name + dest_ext_spec(src)),
        crate::paths::is_normal(name + dest_ext_spec(src)),
        crate::paths::stem_of_name(name + dest_ext_spec(src)) == name,
{
    let e = extension(src).unwrap();
    crate::paths::lemma_extension_plain(src);
    let f = name + dest_ext_spec(src);
    assert(f =~= name + seq!['.'] + e);
    crate::paths::lemma_stem_of_dotted(name, e);
    lemma_has_char_concat(name, seq!['.'], '/');
    lemma_has_char_concat(name + seq!['.'], e, '/');
    assert(!has_char(seq!['.'], '/')) by {
        if has_char(seq!['.'], '/') {
            let i = choose|i: int| 0 <= i < 1 && seq!['.'][i] == '/';
        }
    }
    assert(f.len() >= 2);
}

/// The components of a path made by joining single names.
proof fn lemma_file_in_dir(dir: Seq<char>, folder: Seq<char>, file: Seq<char>)
    requires
        crate::paths::single_name(folder),
        crate::paths::single_name(file),
        crate::paths::is_normal(folder),
        crate::paths::is_normal(file),
    ensures
        crate::paths::components(join_path(join_path(dir, folder), file)) == crate::paths::components(
            dir,
        ).push(folder).push(file),
        crate::paths::file_name(join_path(join_path(dir, folder), file)) == Some(file),
{
    crate::paths::lemma_components_join(dir, folder);
    crate::paths::lemma_components_join(join_path(dir, folder), file);
}

/// A video the organiser files as a movie is recognised as already
/// organised, so a later scan leaves it where it is, whenever the year it
/// is filed under has four digits.
pub proof fn law_movie_destination_is_organised(
    cfg: Config,
    hit_title: Seq<char>,
    hit_year: Option<u16>,
    parsed_year: u16,
    src: Seq<char>,
)
    requires
        movie_dest_spec(cfg, hit_title, hit_year, parsed_year, src) is Ok,
        extension(src) is Some,
        1000 <= (match hit_year {
            Some(y) => y,
            None => parsed_year,
        }) <= 9999,
    ensures
        match movie_dest_spec(cfg, hit_title, hit_year, parsed_year, src) {
            Ok(p) => looks_organised_movie_spec(p, movies_root(cfg)) && looks_organised_spec(p, cfg),
            Err(_) => true,
        },
{
    let title = sanitize_name_spec(hit_title);
    lemma_sanitized_plain(hit_title);
    let y = match hit_year {
        Some(y) => y,
        None => parsed_year,
    };
    let folder = titled_folder(title, y as nat);
    let file = folder + dest_ext_spec(src);
    let p = join_path(join_path(movies_root(cfg), folder), file);
    assert(movie_dest_spec(cfg, hit_title, hit_year, parsed_year, src) == Ok::<Seq<char>, Seq<char>>(p));
    lemma_movie_file_organised(movies_root(cfg), title, y as nat, src);
}

proof fn lemma_movie_file_organised(root: Seq<char>, title: Seq<char>, y: nat, src: Seq<char>)
    requires
        title.len() > 0,
        plain_name(title),
        1000 <= y <= 9999,
        extension(src) is Some,
    ensures
        looks_organised_movie_spec(
            join_path(
                join_path(root, titled_folder(title, y)),
                titled_folder(title, y) + dest_ext_spec(src),
            ),
            root,
        ),
{
    let folder = titled_folder(title, y);
    lemma_titled_folder(title, y);
    lemma_named_file(folder, src);
    let file = folder + dest_ext_spec(src);
    let p = join_path(join_path(root, folder), file);
    lemma_file_in_dir(root, folder, file);
    let c = crate::paths::components(p);
    let cr = crate::paths::components(root);
    assert(c.last() == file);
    assert(file != crate::paths::root_comp());
    assert(crate::paths::parent_of(c) == Some(cr.push(folder))) by {
        assert(c.drop_last() =~= cr.push(folder));
    }
    assert(folder != crate::paths::root_comp());
    assert(crate::paths::parent_of(cr.push(folder)) == Some(cr)) by {
        assert(cr.push(folder).drop_last() =~= cr);
    }
    assert(crate::paths::file_name_of(cr.push(folder)) == Some(folder));
    assert(crate::paths::file_stem(p) == Some(folder));
}

/// A video the organiser files as an episode is recognised as already
/// organised, so a later scan leaves it where it is, whenever the show's
/// year has four digits and the season and episode numbers two.
pub proof fn law_tv_destination_is_organised(
    cfg: Config,
    hit_title: Seq<char>,
    hit_year: Option<u16>,
    episode_title: Seq<char>,
    season: u32,
    episode: u32,
    src: Seq<char>,
)
    requires
        tv_dest_spec(cfg, hit_title, hit_year, episode_title, season, episode, src) is Ok,
        extension(src) is Some,
        hit_year matches Some(y) && 1000 <= y <= 9999,
        season <= 99,
        episode <= 99,
    ensures
        match tv_dest_spec(cfg, hit_title, hit_year, episode_title, season, episode, src) {
            Ok(p) => looks_organised_tv_spec(p, tv_root(cfg)) && looks_organised_spec(p, cfg),
            Err(_) => true,
        },
{
    reveal_strlit("Season ");
    reveal_strlit(" - S");
    reveal_strlit("E");
    reveal_strlit(" - ");
    let show = sanitize_name_spec(hit_title);
    let ep = sanitize_name_spec(episode_title);
    lemma_sanitized_plain(hit_title);
    lemma_sanitized_plain(episode_title);
    let y = hit_year.unwrap();
    let show_f = titled_folder(show, y as nat);
    lemma_titled_folder(show, y as nat);
    let season_f = season_folder(season);
    lemma_two_digits(season as nat);
    lemma_two_digits(episode as nat);
    let ps = padded(season as nat, 2);
    let pe = padded(episode as nat, 2);
    assert(season_f.take(7) =~= "Season "@);
    assert(season_f[7] == ps[0] && season_f[8] == ps[1]);
    assert(season_dir_shape(season_f));
    assert(plain_name(season_f)) by {
        if has_char(season_f, '/') || has_char(season_f, '\n') {
            let i = choose|i: int| 0 <= i < season_f.len() && (season_f[i] == '/' || season_f[i] == '\n');
            if i >= 7 {
                assert(crate::text::is_ascii_digit(ps[i - 7]));
            }
        }
    }
    assert(crate::paths::single_name(season_f) && crate::paths::is_normal(season_f));
    // the episode file's name without its extension
    let stem = show + " - S"@ + ps + "E"@ + pe + " - "@ + ep;
    let mid = " - S"@ + ps + "E"@ + pe + " - "@;
    assert(stem =~= show + mid + ep);
    assert(mid.len() == 12);
    assert(plain_name(mid)) by {
        if has_char(mid, '/') || has_char(mid, '\n') {
            let i = choose|i: int| 0 <= i < mid.len() && (mid[i] == '/' || mid[i] == '\n');
            if 4 <= i < 6 {
                assert(crate::text::is_ascii_digit(ps[i - 4]));
            }
            if 7 <= i < 9 {
                assert(crate::text::is_ascii_digit(pe[i - 7]));
            }
        }
    }
    lemma_has_char_concat(show, mid, '/');
    lemma_has_char_concat(show, mid, '\n');
    lemma_has_char_concat(show + mid, ep, '/');
    lemma_has_char_concat(show + mid, ep, '\n');
    let k = show.len() as int;
    assert(stem[k] == ' ' && stem[k + 1] == '-' && stem[k + 2] == ' ' && stem[k + 3] == 'S');
    assert(stem[k + 4] == ps[0] && stem[k + 5] == ps[1] && stem[k + 6] == 'E');
    assert(stem[k + 7] == pe[0] && stem[k + 8] == pe[1]);
    assert(stem[k + 9] == ' ' && stem[k + 10] == '-' && stem[k + 11] == ' ');
    assert(episode_marker_at(stem, k));
    assert(episode_file_shape(stem));
    lemma_named_file(stem, src);
    let file = stem + dest_ext_spec(src);
    assert(episode_file_name(show, season, episode, ep, dest_ext_spec(src)) =~= file);
    let dir = join_path(tv_root(cfg), show_f);
    lemma_file_in_dir(dir, season_f, file);
    crate::paths::lemma_components_join(tv_root(cfg), show_f);
    let p = join_path(join_path(dir, season_f), file);
    let c = crate::paths::components(p);
    let cr = crate::paths::components(tv_root(cfg));
    assert(c =~= cr.push(show_f).push(season_f).push(file));
    assert(c.drop_last() =~= cr.push(show_f).push(season_f));
    assert(cr.push(show_f).push(season_f).drop_last() =~= cr.push(show_f));
    assert(cr.push(show_f).drop_last() =~= cr);
    assert(file != crate::paths::root_comp());
    assert(season_f != crate::paths::root_comp());
    assert(show_f != crate::paths::root_comp());
}

// ---------------------------------------------------------------------------
// What every sanitised name and every parsed title looks like
// ---------------------------------------------------------------------------

/// A sanitised name holds no character that file systems refuse and no
/// control character, has no white space at its edges, and inside has only
/// single plain spaces between words.
pub proof fn law_sanitized_names_are_clean(s: Seq<char>)
    ensures
        all_chars(sanitize_name_spec(s), |c: char| !is_forbidden_in_name(c)),
        trim(sanitize_name_spec(s), TrimSet::WhiteSpace) == sanitize_name_spec(s),
        single_spaced(sanitize_name_spec(s)),
{
    let f = |c: char| !is_forbidden_in_name(c);
    let u = underscore_forbidden(s);
    assert forall|i: int| 0 <= i < u.len() implies f(#[trigger] u[i]) by {
        assert(u[i] == (if is_forbidden_in_name(s[i]) { '_' } else { s[i] }));
    }
    crate::text::lemma_words_all_chars(u, f);
    assert(all_chars(space(), f)) by {
        assert forall|i: int| 0 <= i < space().len() implies f(#[trigger] space()[i]) by {
            assert(space()[i] == ' ');
        }
    }
    crate::text::lemma_join_all_chars(words(u), space(), f);
    lemma_words_shape(u);
    crate::text::lemma_join_single_spaced(words(u));
    let c1 = collapse(u);
    crate::text::lemma_single_spaced_is_spaced(c1);
    crate::text::lemma_trim_keeps(c1, TrimSet::Dots, f);
    let t2 = trim(c1, TrimSet::Dots);
    crate::text::lemma_trim_keeps(t2, TrimSet::WhiteSpace, f);
    crate::text::lemma_trimmed_spaced(t2);
}

/// A title as read from a file name: not empty, without `.` or `_`, and
/// with only single plain spaces between its words.
pub open spec fn clean_title(t: Seq<char>) -> bool {
    &&& t.len() > 0
    &&& all_chars(t, |c: char| c != '.' && c != '_')
    &&& single_spaced(t)
}

proof fn lemma_title_words_clean(ws: Seq<Seq<char>>)
    requires
        forall|i: int|
            0 <= i < ws.len() ==> crate::text::word_ok(#[trigger] ws[i]) && all_chars(
                ws[i],
                |c: char| c != '.' && c != '_',
            ),
    ensures
        forall|i: int|
            0 <= i < title_words(ws).len() ==> #[trigger] title_words(ws)[i].len() > 0
                && crate::text::word_ok(title_words(ws)[i]) && all_chars(
                title_words(ws)[i],
                |c: char| c != '.' && c != '_',
            ),
    decreases ws.len(),
{
    if ws.len() > 0 {
        assert forall|i: int| 0 <= i < ws.drop_last().len() implies crate::text::word_ok(
            #[trigger] ws.drop_last()[i],
        ) && all_chars(ws.drop_last()[i], |c: char| c != '.' && c != '_') by {
            assert(ws.drop_last()[i] == ws[i]);
        }
        lemma_title_words_clean(ws.drop_last());
        let r = title_words(ws.drop_last());
        let w = ws.last();
        assert(crate::text::word_ok(w) && all_chars(w, |c: char| c != '.' && c != '_')) by {
            assert(ws[ws.len() - 1] == w);
        }
        let t = trim(w, TrimSet::DashDotUnderscore);
        crate::text::lemma_trim_keeps(w, TrimSet::DashDotUnderscore, |c: char| c != '.' && c != '_');
        crate::text::lemma_trim_keeps(w, TrimSet::DashDotUnderscore, |c: char| !crate::text::is_white_space(c));
        assert(all_chars(w, |c: char| !crate::text::is_white_space(c)));
        assert(crate::text::word_ok(t));
        if t.len() > 0 {
            assert forall|i: int| 0 <= i < r.push(t).len() implies #[trigger] r.push(t)[i].len() > 0
                && crate::text::word_ok(r.push(t)[i]) && all_chars(
                r.push(t)[i],
                |c: char| c != '.' && c != '_',
            ) by {
                if i < r.len() {
                    assert(r.push(t)[i] == r[i]);
                }
            }
        }
    }
}

/// A title read before a marker is clean whenever it is not empty.
pub proof fn lemma_title_clean(p: Seq<char>)
    ensures
        title_from_prefix_spec(p).len() > 0 ==> clean_title(title_from_prefix_spec(p)),
{
    let f = |c: char| c != '.' && c != '_';
    let d = dots_to_spaces(p);
    assert forall|i: int| 0 <= i < d.len() implies f(#[trigger] d[i]) by {
        assert(d[i] == (if p[i] == '.' || p[i] == '_' { ' ' } else { p[i] }));
    }
    crate::text::lemma_words_all_chars(d, f);
    lemma_words_shape(d);
    let w = words(d);
    lemma_title_words_clean(w);
    let tw = title_words(w);
    assert(all_chars(space(), f)) by {
        assert forall|i: int| 0 <= i < space().len() implies f(#[trigger] space()[i]) by {
            assert(space()[i] == ' ');
        }
    }
    crate::text::lemma_join_all_chars(tw, space(), f);
    crate::text::lemma_join_single_spaced(tw);
}

proof fn lemma_first_tv_none(s: Seq<char>, i: int)
    requires
        0 <= i,
        first_tv_from(s, i).is_none(),
    ensures
        forall|j: int| i <= j ==> (#[trigger] tv_at(s, j)).is_none(),
    decreases s.len() - i,
{
    if i < s.len() {
        lemma_first_tv_none(s, i + 1);
    }
    assert forall|j: int| i <= j implies (#[trigger] tv_at(s, j)).is_none() by {
        if j >= s.len() {
            assert(tv_season_len(s, j).is_none());
        }
    }
}

proof fn lemma_two_digits_small(d: Seq<char>)
    requires
        d.len() <= 2,
        all_ascii_digits(d),
    ensures
        crate::text::decimal_value(d) <= 99,
{
    reveal_with_fuel(crate::text::decimal_value, 3);
    if d.len() >= 1 {
        assert(crate::text::is_ascii_digit(d[d.len() - 1]));
    }
    if d.len() == 2 {
        assert(crate::text::is_ascii_digit(d[0]));
        assert(d.drop_last().last() == d[0]);
        assert(d.drop_last().drop_last().len() == 0);
    }
}

proof fn lemma_marker_number_small(s: Seq<char>, lo: int, k: int)
    requires
        0 <= lo,
        lo + k <= s.len(),
        1 <= k <= 2,
    ensures
        parse_unsigned(s.subrange(lo, lo + k), 0xFFFF_FFFF) matches Some(v) ==> v <= 99,
{
    let sub = s.subrange(lo, lo + k);
    let d = crate::text::unsigned_digits(sub);
    if parse_unsigned(sub, 0xFFFF_FFFF).is_some() {
        lemma_two_digits_small(d);
    }
}

proof fn lemma_find_year_value(s: Seq<char>, i: int)
    ensures
        find_year_from(s, i) matches Some((m, v)) ==> year_at(s, m) && parse_unsigned(
            s.subrange(m, m + 4),
            0xFFFF,
        ) == Some(v),
    decreases s.len() - i,
{
    if !(i < 0 || i > s.len()) {
        lemma_next_year_bounds(s, i);
        match next_year_from(s, i) {
            Some(m) => {
                if !year_isolated(s, m) {
                    lemma_find_year_value(s, m + 4);
                }
            },
            None => {},
        }
    }
}

proof fn lemma_year_range(s: Seq<char>, m: int)
    requires
        year_at(s, m),
        parse_unsigned(s.subrange(m, m + 4), 0xFFFF).is_some(),
    ensures
        1900 <= parse_unsigned(s.subrange(m, m + 4), 0xFFFF).unwrap() <= 2099,
{
    let sub = s.subrange(m, m + 4);
    assert(sub[0] == s[m] && sub[1] == s[m + 1]);
    assert(crate::text::unsigned_digits(sub) == sub);
    assert(all_ascii_digits(sub));
    assert(crate::text::is_ascii_digit(sub[2]) && crate::text::is_ascii_digit(sub[3]));
    reveal_with_fuel(crate::text::decimal_value, 5);
    let s3 = sub.drop_last();
    let s2 = s3.drop_last();
    let s1 = s2.drop_last();
    assert(s1.drop_last().len() == 0);
    assert(s1.last() == sub[0] && s2.last() == sub[1] && s3.last() == sub[2]);
    assert(sub.last() == sub[3]);
}

/// The episode marker at `i`, with `k1` season and `k2` episode digits,
/// spells `season` and `episode`.
pub open spec fn marker_spells(
    stem: Seq<char>,
    i: int,
    k1: int,
    k2: int,
    season: nat,
    episode: nat,
) -> bool {
    &&& parse_unsigned(stem.subrange(i + 1, i + 1 + k1), 0xFFFF_FFFF) == Some(season)
    &&& parse_unsigned(stem.subrange(i + 2 + k1, i + 2 + k1 + k2), 0xFFFF_FFFF) == Some(episode)
}

/// What `parse_filename` reads is well formed: an episode's season and
/// episode numbers are at most 99 and are the numbers that an `SxxEyy`
/// marker in the stem spells; a movie's year lies in 1900..=2099 and its stem has no such
/// marker; and the show or movie title is clean.
pub proof fn law_parsed_names_are_well_formed(name: Seq<char>)
    ensures
        parse_filename_spec(name) matches Some(ParsedView::Tv { show, season, episode }) ==> season
            <= 99 && episode <= 99 && clean_title(show) && exists|i: int|
            #[trigger] tv_at(stem_spec(name), i) matches Some((k1, k2)) && marker_spells(
                stem_spec(name),
                i,
                k1,
                k2,
                season as nat,
                episode as nat,
            ),
        parse_filename_spec(name) matches Some(ParsedView::Movie { title, year }) ==> 1900 <= year
            <= 2099 && clean_title(title) && forall|i: int|
            (#[trigger] tv_at(stem_spec(name), i)).is_none(),
{
    let stem = stem_spec(name);
    if stem.len() > 0 {
        lemma_first_tv_bounds(stem, 0);
        match first_tv_from(stem, 0) {
            Some(i) => {
                let (k1, k2) = tv_at(stem, i).unwrap();
                assert(1 <= k1 <= 2 && 1 <= k2 <= 2);
                assert(i + 2 + k1 + k2 <= stem.len());
                lemma_marker_number_small(stem, i + 1, k1);
                lemma_marker_number_small(stem, i + 2 + k1, k2);
                lemma_title_clean(stem.take(i));
            },
            None => {
                lemma_first_tv_none(stem, 0);
                lemma_find_year_value(stem, 0);
                match find_year_from(stem, 0) {
                    Some((m, y)) => {
                        lemma_year_range(stem, m);
                        lemma_title_clean(stem.take(m));
                    },
                    None => {},
                }
            },
        }
    }
}

// ---------------------------------------------------------------------------
// Titles keep every character that is no separator
// ---------------------------------------------------------------------------

/// The characters that reading a title may drop or turn into spaces: `.`,
/// `_`, `-` and white space.
pub open spec fn is_title_sep(c: char) -> bool {
    c == '.' || c == '_' || c == '-' || crate::text::is_white_space(c)
}

/// The characters of `s` that are no separators, in order.
pub open spec fn kept(s: Seq<char>) -> Seq<char>
    decreases s.len(),
{
    if s.len() == 0 {
        Seq::empty()
    } else if is_title_sep(s.last()) {
        kept(s.drop_last())
    } else {
        kept(s.drop_last()).push(s.last())
    }
}

/// The kept characters of each item, one item after another.
pub open spec fn flat_kept(v: Seq<Seq<char>>) -> Seq<char>
    decreases v.len(),
{
    if v.len() == 0 {
        Seq::empty()
    } else {
        flat_kept(v.drop_last()) + kept(v.last())
    }
}

proof fn lemma_kept_concat(a: Seq<char>, b: Seq<char>)
    ensures
        kept(a + b) == kept(a) + kept(b),
    decreases b.len(),
{
    if b.len() == 0 {
        assert(a + b =~= a);
        assert(kept(a) + kept(b) =~= kept(a));
    } else {
        assert((a + b).drop_last() =~= a + b.drop_last());
        assert((a + b).last() == b.last());
        lemma_kept_concat(a, b.drop_last());
        if !is_title_sep(b.last()) {
            assert(kept(a) + kept(b.drop_last()).push(b.last()) =~= (kept(a) + kept(
                b.drop_last(),
            )).push(b.last()));
        }
    }
}

proof fn lemma_kept_dots(p: Seq<char>)
    ensures
        kept(dots_to_spaces(p)) == kept(p),
    decreases p.len(),
{
    if p.len() > 0 {
        assert(dots_to_spaces(p).drop_last() =~= dots_to_spaces(p.drop_last()));
        lemma_kept_dots(p.drop_last());
        let c = p.last();
        assert(dots_to_spaces(p).last() == (if c == '.' || c == '_' { ' ' } else { c }));
        assert(crate::text::is_white_space(' '));
    }
}

proof fn lemma_kept_words_scan(s: Seq<char>)
    ensures
        kept(s) == flat_kept(crate::text::words_scan(s).0) + kept(crate::text::words_scan(s).1),
    decreases s.len(),
{
    if s.len() == 0 {
        assert(flat_kept(Seq::<Seq<char>>::empty()) + kept(Seq::<char>::empty()) =~= Seq::<
            char,
        >::empty());
    } else {
        lemma_kept_words_scan(s.drop_last());
        let (d, c) = crate::text::words_scan(s.drop_last());
        let x = s.last();
        if crate::text::is_white_space(x) {
            if c.len() > 0 {
                assert(d.push(c).drop_last() =~= d);
                assert(d.push(c).last() == c);
                assert(flat_kept(d.push(c)) + kept(Seq::<char>::empty()) =~= flat_kept(d) + kept(
                    c,
                ));
            }
        } else {
            assert(c.push(x).drop_last() =~= c);
            assert(c.push(x).last() == x);
            assert(flat_kept(d) + kept(c).push(x) =~= (flat_kept(d) + kept(c)).push(x));
        }
    }
}

proof fn lemma_kept_words(s: Seq<char>)
    ensures
        kept(s) == flat_kept(words(s)),
{
    lemma_kept_words_scan(s);
    let (d, c) = crate::text::words_scan(s);
    if c.len() > 0 {
        assert(d.push(c).drop_last() =~= d);
        assert(d.push(c).last() == c);
    } else {
        assert(flat_kept(d) + kept(c) =~= flat_kept(d));
    }
}

proof fn lemma_kept_trim_start(s: Seq<char>)
    ensures
        kept(trim_start(s, TrimSet::DashDotUnderscore)) == kept(s),
    decreases s.len(),
{
    if s.len() > 0 && crate::text::in_set(TrimSet::DashDotUnderscore, s[0]) {
        lemma_kept_trim_start(s.drop_first());
        lemma_kept_concat(seq![s[0]], s.drop_first());
        assert(seq![s[0]] + s.drop_first() =~= s);
        assert(seq![s[0]].drop_last() =~= Seq::<char>::empty());
        assert(seq![s[0]].last() == s[0]);
        assert(is_title_sep(s[0]));
        assert(kept(seq![s[0]]) == kept(Seq::<char>::empty()));
        assert(kept(seq![s[0]]) + kept(s.drop_first()) =~= kept(s.drop_first()));
    }
}

proof fn lemma_kept_trim_end(s: Seq<char>)
    ensures
        kept(trim_end(s, TrimSet::DashDotUnderscore)) == kept(s),
    decreases s.len(),
{
    if s.len() > 0 && crate::text::in_set(TrimSet::DashDotUnderscore, s.last()) {
        lemma_kept_trim_end(s.drop_last());
    }
}

proof fn lemma_kept_title_words(ws: Seq<Seq<char>>)
    ensures
        flat_kept(title_words(ws)) == flat_kept(ws),
    decreases ws.len(),
{
    if ws.len() > 0 {
        lemma_kept_title_words(ws.drop_last());
        let r = title_words(ws.drop_last());
        let w = ws.last();
        let t = trim(w, TrimSet::DashDotUnderscore);
        lemma_kept_trim_start(w);
        lemma_kept_trim_end(trim_start(w, TrimSet::DashDotUnderscore));
        assert(kept(t) == kept(w));
        if t.len() > 0 {
            assert(r.push(t).drop_last() =~= r);
            assert(r.push(t).last() == t);
        } else {
            assert(kept(t) =~= Seq::<char>::empty());
            assert(flat_kept(r) + kept(w) =~= flat_kept(r));
        }
    }
}

proof fn lemma_kept_join(v: Seq<Seq<char>>)
    ensures
        kept(join(v, space())) == flat_kept(v),
    decreases v.len(),
{
    if v.len() == 1 {
        assert(v.drop_last() =~= Seq::<Seq<char>>::empty());
        assert(flat_kept(v.drop_last()) == flat_kept(Seq::<Seq<char>>::empty()));
        assert(v.last() == v[0]);
        assert(Seq::<char>::empty() + kept(v[0]) =~= kept(v[0]));
        assert(flat_kept(v) == flat_kept(v.drop_last()) + kept(v.last()));
        assert(join(v, space()) == v[0]);
    } else if v.len() > 1 {
        lemma_kept_join(v.drop_last());
        let a = join(v.drop_last(), space());
        lemma_kept_concat(a + space(), v.last());
        lemma_kept_concat(a, space());
        assert(space().drop_last() =~= Seq::<char>::empty());
        assert(space().last() == ' ');
        assert(crate::text::is_white_space(' '));
        assert(is_title_sep(space().last()));
        assert(kept(space()) == kept(Seq::<char>::empty()));
        assert(kept(space()) =~= Seq::<char>::empty());
        assert(kept(a) + Seq::<char>::empty() =~= kept(a));
        assert(join(v, space()) == a + space() + v.last());
        assert(kept(join(v, space())) == kept(a) + kept(v.last()));
        assert(flat_kept(v) == flat_kept(v.drop_last()) + kept(v.last()));
    }
}

/// Reading a title from the text before a marker or year keeps every
/// character of that text that is no separator (`.`, `_`, `-` or white
/// space), in order, and adds none: no word is lost or cut short.
pub proof fn law_titles_keep_every_letter(p: Seq<char>)
    ensures
        kept(title_from_prefix_spec(p)) == kept(p),
{
    let d = dots_to_spaces(p);
    lemma_kept_dots(p);
    lemma_kept_words(d);
    lemma_kept_title_words(words(d));
    lemma_kept_join(title_words(words(d)));
}

/// A parsed name's title is read from the whole stem before its marker: for
/// a movie, the first stand-alone year (which is the year returned); for an
/// episode, the first `SxxEyy` marker. Every character of that text that is
/// no separator stands in the title, in order.
pub proof fn law_parsed_title_is_whole_prefix(name: Seq<char>)
    ensures
        parse_filename_spec(name) matches Some(ParsedView::Movie { title, year }) ==> (find_year_from(
            stem_spec(name),
            0,
        ) matches Some((i, y)) && y == year as nat && kept(title) == kept(
            stem_spec(name).take(i),
        )),
        parse_filename_spec(name) matches Some(ParsedView::Tv { show, season, episode }) ==> (
        first_tv_from(stem_spec(name), 0) matches Some(i) && kept(show) == kept(
            stem_spec(name).take(i),
        )),
{
    let stem = stem_spec(name);
    if stem.len() > 0 {
        match first_tv_from(stem, 0) {
            Some(i) => {
                law_titles_keep_every_letter(stem.take(i));
            },
            None => {
                lemma_find_year_value(stem, 0);
                match find_year_from(stem, 0) {
                    Some((m, y)) => {
                        lemma_year_range(stem, m);
                        law_titles_keep_every_letter(stem.take(m));
                    },
                    None => {},
                }
            },
        }
    }
}

} // verus!
