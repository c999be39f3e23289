//! Which back end downloads a URL, and which URLs are accepted at all.
use vstd::prelude::*;
use crate::store::TaskType;
use crate::text::{
    after_last_char, after_last_char_exec, before_char, before_char_exec, chars_of, contains,
    contains_chars, ends_with, has_prefix, occurs_at,
    has_suffix, lit, lower, starts_with, string_of, to_lower, trim, trimmed, TrimSet,
};

verus! {

/// Sites whose pages yt-dlp downloads.
pub open spec fn video_hosts() -> Seq<Seq<char>> {
    seq![
        "youtube.com"@,
        "youtu.be"@,
        "m.youtube.com"@,
        "bilibili.com"@,
        "b23.tv"@,
        "tiktok.com"@,
        "douyin.com"@,
        "twitter.com"@,
        "x.com"@,
        "instagram.com"@,
        "facebook.com"@,
        "twitch.tv"@,
        "vimeo.com"@,
        "dailymotion.com"@,
        "nicovideo.jp"@,
        "reddit.com"@,
        "old.reddit.com"@,
    ]
}

fn video_hosts_exec() -> (r: Vec<&'static str>)
    ensures
        r@.map_values(|s: &str| s@) == video_hosts(),
{
    let r = vec![
        "youtube.com",
        "youtu.be",
        "m.youtube.com",
        "bilibili.com",
        "b23.tv",
        "tiktok.com",
        "douyin.com",
        "twitter.com",
        "x.com",
        "instagram.com",
        "facebook.com",
        "twitch.tv",
        "vimeo.com",
        "dailymotion.com",
        "nicovideo.jp",
        "reddit.com",
        "old.reddit.com",
    ];
    assert(r@.map_values(|s: &str| s@) =~= video_hosts());
    r
}

/// The URL text names one of the video sites anywhere in it. URL
/// validation accepts such a URL without the search-page check; routing
/// goes by the host instead (`names_video_host`).
pub open spec fn mentions_video_host(lower_url: Seq<char>) -> bool {
    exists|i: int| 0 <= i < video_hosts().len() && contains(lower_url, #[trigger] video_hosts()[i])
}

fn mentions_video_host_exec(l: &Vec<char>) -> (r: bool)
    ensures
        r == mentions_video_host(l@),
{
    let hosts = video_hosts_exec();
    let mut i: usize = 0;
    while i < hosts.len()
        invariant
            i <= hosts.len(),
            hosts@.map_values(|s: &str| s@) == video_hosts(),
            forall|j: int| 0 <= j < i ==> !contains(l@, #[trigger] video_hosts()[j]),
        decreases hosts.len() - i,
    {
        let h = lit(hosts[i]);
        assert(h@ == video_hosts()[i as int]);
        if contains_chars(l, &h) {
            return true;
        }
        i = i + 1;
    }
    false
}

/// The index of the first `"://"` in a text.
pub open spec fn first_scheme_mark(l: Seq<char>, i: int) -> bool {
    occurs_at(l, "://"@, i) && forall|j: int| 0 <= j < i ==> !occurs_at(l, "://"@, j)
}

/// The text after the first `"://"`, or the whole text when it has none.
pub open spec fn after_scheme(l: Seq<char>) -> Seq<char> {
    if contains(l, "://"@) {
        l.skip((choose|i: int| first_scheme_mark(l, i)) + 3)
    } else {
        l
    }
}

/// Ends a URL's authority: `/`, `\`, `?` or `#`.
pub open spec fn ends_authority(c: char) -> bool {
    c == '/' || c == '\\' || c == '?' || c == '#'
}

/// The text before the first character that ends an authority.
pub open spec fn authority_of(s: Seq<char>) -> Seq<char>
    decreases s.len(),
{
    if s.len() == 0 || ends_authority(s[0]) {
        Seq::empty()
    } else {
        seq![s[0]] + authority_of(s.drop_first())
    }
}

/// The host of a (lower-cased) URL: its authority without user
/// information and port.
pub open spec fn url_host(l: Seq<char>) -> Seq<char> {
    before_char(after_last_char(authority_of(after_scheme(l)), '@'), ':')
}

/// A host that is one of the video sites or a subdomain of one.
pub open spec fn is_video_host(host: Seq<char>) -> bool {
    exists|i: int|
        0 <= i < video_hosts().len() && (host == #[trigger] video_hosts()[i] || has_suffix(
            host,
            seq!['.'] + video_hosts()[i],
        ))
}

/// The URL's host is one of the video sites or a subdomain of one.
pub open spec fn names_video_host(lower_url: Seq<char>) -> bool {
    is_video_host(url_host(lower_url))
}

proof fn lemma_first_mark_unique(l: Seq<char>, i: int, k: int)
    requires
        first_scheme_mark(l, i),
        first_scheme_mark(l, k),
    ensures
        i == k,
{
    if i < k {
        assert(!occurs_at(l, "://"@, i));
    } else if k < i {
        assert(!occurs_at(l, "://"@, k));
    }
}

fn after_scheme_exec(l: &Vec<char>) -> (r: Vec<char>)
    ensures
        r@ == after_scheme(l@),
{
    let mark = lit("://");
    proof {
        reveal_strlit("://");
    }
    assert(mark@.len() == 3);
    match crate::text::find(l, &mark) {
        Some(i) => {
            proof {
                assert(first_scheme_mark(l@, i as int));
                let k = choose|k: int| first_scheme_mark(l@, k);
                lemma_first_mark_unique(l@, i as int, k);
            }
            assert(occurs_at(l@, mark@, i as int));
            assert(i + 3 <= l.len());
            let r = crate::text::slice(l, i + 3, l.len());
            assert(r@ =~= l@.skip(i + 3));
            r
        },
        None => crate::text::slice(l, 0, l.len()),
    }
}

fn authority_exec(s: &Vec<char>) -> (r: Vec<char>)
    ensures
        r@ == authority_of(s@),
{
    let mut i: usize = 0;
    assert(s@.skip(0) =~= s@);
    assert(s@.take(0) + s@.skip(0) =~= s@);
    while i < s.len() && !(s[i] == '/' || s[i] == '\\' || s[i] == '?' || s[i] == '#')
        invariant
            i <= s.len(),
            authority_of(s@) == s@.take(i as int) + authority_of(s@.skip(i as int)),
        decreases s.len() - i,
    {
        assert(s@.skip(i as int).drop_first() =~= s@.skip(i + 1));
        assert(s@.take(i as int) + seq![s@[i as int]] =~= s@.take(i + 1));
        i = i + 1;
    }
    let r = crate::text::slice(s, 0, i);
    assert(r@ =~= s@.take(i as int));
    assert(s@.take(i as int) + Seq::<char>::empty() =~= s@.take(i as int));
    r
}

/// The host of a lower-cased URL.
pub fn url_host_exec(l: &Vec<char>) -> (r: Vec<char>)
    ensures
        r@ == url_host(l@),
{
    let rest = after_scheme_exec(l);
    let auth = authority_exec(&rest);
    let after_user = after_last_char_exec(&auth, '@');
    before_char_exec(&after_user, ':')
}

fn names_video_host_exec(l: &Vec<char>) -> (r: bool)
    ensures
        r == names_video_host(l@),
{
    let host = url_host_exec(l);
    let hosts = video_hosts_exec();
    let mut i: usize = 0;
    while i < hosts.len()
        invariant
            i <= hosts.len(),
            host@ == url_host(l@),
            hosts@.map_values(|s: &str| s@) == video_hosts(),
            forall|j: int|
                0 <= j < i ==> !(host@ == #[trigger] video_hosts()[j] || has_suffix(
                    host@,
                    seq!['.'] + video_hosts()[j],
                )),
        decreases hosts.len() - i,
    {
        let h = lit(hosts[i]);
        assert(h@ == video_hosts()[i as int]);
        let dotted = crate::text::concat(&lit("."), &h);
        proof {
            reveal_strlit(".");
        }
        assert(dotted@ =~= seq!['.'] + video_hosts()[i as int]);
        if crate::text::chars_eq(&host, &h) || ends_with(&host, &dotted) {
            assert(host@ == video_hosts()[i as int] || has_suffix(
                host@,
                seq!['.'] + video_hosts()[i as int],
            ));
            assert(0 <= i < video_hosts().len());
            assert(is_video_host(host@));
            return true;
        }
        i = i + 1;
    }
    false
}

/// File extensions that mark a URL as a direct file download.
pub open spec fn direct_exts() -> Seq<Seq<char>> {
    seq![
        ".mkv"@,
        ".mp4"@,
        ".avi"@,
        ".mov"@,
        ".wmv"@,
        ".flv"@,
        ".webm"@,
        ".m4v"@,
        ".ts"@,
        ".zip"@,
        ".rar"@,
        ".7z"@,
        ".tar"@,
        ".gz"@,
        ".bz2"@,
        ".xz"@,
        ".pdf"@,
        ".epub"@,
        ".mobi"@,
        ".mp3"@,
        ".flac"@,
        ".wav"@,
        ".aac"@,
        ".ogg"@,
        ".iso"@,
        ".img"@,
    ]
}

/// The (lower-cased) URL's path, before any `?`, ends with a file extension.
pub open spec fn is_direct_file_url_spec(lower_url: Seq<char>) -> bool {
    let path = before_char(lower_url, '?');
    exists|i: int| 0 <= i < direct_exts().len() && has_suffix(path, #[trigger] direct_exts()[i])
}

/// Whether a lower-cased URL points straight at a file, by its extension.
pub fn is_direct_file_url(lower_url: &str) -> (r: bool)
    ensures
        r == is_direct_file_url_spec(lower_url@),
{
    let exts = vec![
        ".mkv",
        ".mp4",
        ".avi",
        ".mov",
        ".wmv",
        ".flv",
        ".webm",
        ".m4v",
        ".ts",
        ".zip",
        ".rar",
        ".7z",
        ".tar",
        ".gz",
        ".bz2",
        ".xz",
        ".pdf",
        ".epub",
        ".mobi",
        ".mp3",
        ".flac",
        ".wav",
        ".aac",
        ".ogg",
        ".iso",
        ".img",
    ];
    assert(exts@.map_values(|s: &str| s@) =~= direct_exts());
    let path = before_char_exec(&chars_of(lower_url), '?');
    let mut i: usize = 0;
    while i < exts.len()
        invariant
            i <= exts.len(),
            exts@.map_values(|s: &str| s@) == direct_exts(),
            path@ == before_char(lower_url@, '?'),
            forall|j: int| 0 <= j < i ==> !has_suffix(path@, #[trigger] direct_exts()[j]),
        decreases exts.len() - i,
    {
        let e = lit(exts[i]);
        assert(e@ == direct_exts()[i as int]);
        if ends_with(&path, &e) {
            return true;
        }
        i = i + 1;
    }
    false
}

/// The (lower-cased) URL points at a `.torrent` file.
pub open spec fn is_torrent_url_spec(lower_url: Seq<char>) -> bool {
    has_suffix(lower_url, ".torrent"@) || contains(lower_url, ".torrent?"@) || contains(
        lower_url,
        ".torrent&"@,
    )
}

/// Whether a lower-cased URL points at a `.torrent` file.
pub fn is_torrent_url(lower_url: &str) -> (r: bool)
    ensures
        r == is_torrent_url_spec(lower_url@),
{
    let l = chars_of(lower_url);
    ends_with(&l, &lit(".torrent")) || contains_chars(&l, &lit(".torrent?")) || contains_chars(
        &l,
        &lit(".torrent&"),
    )
}

pub open spec fn lower_trimmed(url: Seq<char>) -> Seq<char> {
    lower(trim(url, TrimSet::WhiteSpace))
}

/// Which back end downloads a URL: magnets, torrents and direct files go to
/// aria2; with `force_ytdlp`, or when the host is a known video site or a
/// subdomain of one, yt-dlp; anything
/// else aria2.
pub open spec fn classify_spec(url: Seq<char>, force_ytdlp: bool) -> TaskType {
    let l = lower_trimmed(url);
    if has_prefix(l, "magnet:"@) || is_torrent_url_spec(l) {
        TaskType::Aria2
    } else if is_direct_file_url_spec(l) {
        TaskType::Aria2
    } else if force_ytdlp {
        TaskType::Ytdlp
    } else if names_video_host(l) {
        TaskType::Ytdlp
    } else {
        TaskType::Aria2
    }
}

/// Which back end downloads a URL.
pub fn classify_sync(url: &str, force_ytdlp: bool) -> (r: TaskType)
    ensures
        r == classify_spec(url@, force_ytdlp),
{
    let l = to_lower(&trimmed(url));
    let ls = string_of(&l);
    if starts_with(&l, &lit("magnet:")) || is_torrent_url(ls.as_str()) {
        return TaskType::Aria2;
    }
    if is_direct_file_url(ls.as_str()) {
        return TaskType::Aria2;
    }
    if force_ytdlp {
        return TaskType::Ytdlp;
    }
    if names_video_host_exec(&l) {
        return TaskType::Ytdlp;
    }
    TaskType::Aria2
}

/// A magnet link, whatever its case and surrounding white space, is always
/// downloaded by aria2, even when yt-dlp is asked for.
pub proof fn law_magnets_go_to_aria2(url: Seq<char>, force_ytdlp: bool)
    requires
        has_prefix(lower_trimmed(url), "magnet:"@),
    ensures
        classify_spec(url, force_ytdlp) == TaskType::Aria2,
{
}

/// A URL whose path ends in a known file extension is downloaded by aria2,
/// even when yt-dlp is asked for.
pub proof fn law_direct_files_go_to_aria2(url: Seq<char>, force_ytdlp: bool)
    requires
        is_direct_file_url_spec(lower_trimmed(url)),
    ensures
        classify_spec(url, force_ytdlp) == TaskType::Aria2,
{
}

// ---------------------------------------------------------------------------
// URL validation
// ---------------------------------------------------------------------------

/// The parts of a parsed URL that the library reads.
#[derive(Debug, Clone)]
pub struct UrlParts {
    pub scheme: String,
    pub path: String,
    pub query: Option<String>,
    /// The ASCII serialization of the URL's origin.
    pub origin: String,
}

pub type UrlView = (Seq<char>, Seq<char>, Option<Seq<char>>, Seq<char>);

/// What `url::Url::parse` gives for a text: its scheme, path, query and
/// origin, or nothing when it does not parse.
pub uninterp spec fn parsed_url(text: Seq<char>) -> Option<(Seq<char>, Seq<char>, Option<Seq<char>>, Seq<char>)>;

pub open spec fn parts_view(p: UrlParts) -> UrlView {
    (
        p.scheme@,
        p.path@,
        match p.query {
            Some(q) => Some(q@),
            None => None,
        },
        p.origin@,
    )
}

/// `url::Url::parse`, reduced to the scheme, the path, the query and the
/// origin's ASCII serialization (`Url::scheme`, `Url::path`, `Url::query`,
/// `Url::origin().ascii_serialization()`).  The result is named, not
/// stated: URL parsing follows the WHATWG URL standard.
#[verifier::external_body]
pub(crate) fn parse_url(text: &str) -> (r: Option<UrlParts>)
    ensures
        match r {
            Some(p) => parsed_url(text@) == Some(parts_view(p)),
            None => parsed_url(text@).is_none(),
        },
{
    match url::Url::parse(text) {
        Ok(u) => Some(
            UrlParts {
                scheme: u.scheme().to_string(),
                path: u.path().to_string(),
                query: u.query().map(str::to_string),
                origin: u.origin().ascii_serialization(),
            },
        ),
        Err(_) => None,
    }
}

/// A parsed URL that looks like a site's search page: `/search` in its
/// path, or a `query=` or leading `q=` parameter.
pub open spec fn search_page_spec(parts: UrlView) -> bool {
    contains(lower(parts.1), "/search"@) || match parts.2 {
        Some(q) => contains(lower(q), "query="@) || has_prefix(lower(q), "q="@),
        None => false,
    }
}

/// Whether a parsed URL looks like a site's search page.
pub fn looks_like_search_page(parts: &UrlParts) -> (r: bool)
    ensures
        r == search_page_spec(parts_view(*parts)),
{
    let path = to_lower(&chars_of(parts.path.as_str()));
    if contains_chars(&path, &lit("/search")) {
        return true;
    }
    match &parts.query {
        None => false,
        Some(q) => {
            let ql = to_lower(&chars_of(q.as_str()));
            contains_chars(&ql, &lit("query=")) || starts_with(&ql, &lit("q="))
        },
    }
}

/// The verdict on a URL that parsed: only http and https, and not a search
/// page unless it is a file, a torrent or names a video site anywhere in its
/// text.
pub open spec fn check_parsed_spec(
    lower_url: Seq<char>,
    parts: UrlView,
) -> Result<(), Seq<char>> {
    if parts.0 != "http"@ && parts.0 != "https"@ {
        Err("URL must be http, https, or magnet"@)
    } else if is_direct_file_url_spec(lower_url) || is_torrent_url_spec(lower_url) {
        Ok(())
    } else if mentions_video_host(lower_url) {
        Ok(())
    } else if search_page_spec(parts) {
        Err(
            "URL looks like a search page \u{2014} paste a direct magnet, .torrent, file, or video link"@,
        )
    } else {
        Ok(())
    }
}

pub open spec fn result_view(r: Result<(), String>) -> Result<(), Seq<char>> {
    match r {
        Ok(()) => Ok(()),
        Err(e) => Err(e@),
    }
}

/// The verdict on a URL that parsed (`lower_url` is the trimmed,
/// lower-cased URL).
pub fn check_parsed_url(lower_url: &str, parts: &UrlParts) -> (r: Result<(), String>)
    ensures
        result_view(r) == check_parsed_spec(lower_url@, parts_view(*parts)),
{
    let scheme = chars_of(parts.scheme.as_str());
    if !crate::text::chars_eq(&scheme, &lit("http")) && !crate::text::chars_eq(
        &scheme,
        &lit("https"),
    ) {
        return Err("URL must be http, https, or magnet".to_string());
    }
    if is_direct_file_url(lower_url) || is_torrent_url(lower_url) {
        return Ok(());
    }
    if mentions_video_host_exec(&chars_of(lower_url)) {
        return Ok(());
    }
    if looks_like_search_page(parts) {
        return Err(
            "URL looks like a search page \u{2014} paste a direct magnet, .torrent, file, or video link".to_string(),
        );
    }
    Ok(())
}

/// The verdict on a download URL: cheap checks that reject obvious junk
/// before anything is queued.
pub open spec fn validate_spec(url: Seq<char>) -> Result<(), Seq<char>> {
    let t = trim(url, TrimSet::WhiteSpace);
    let l = lower(t);
    if t.len() == 0 {
        Err("URL is empty"@)
    } else if has_prefix(l, "data:"@) || has_prefix(l, "blob:"@) || has_prefix(l, "javascript:"@) {
        Err("Unsupported URL scheme"@)
    } else if has_prefix(l, "magnet:"@) {
        if contains(l, "xt=urn:btih:"@) {
            Ok(())
        } else {
            Err("Magnet links must include a hash (magnet:?xt=urn:btih:...)"@)
        }
    } else {
        match parsed_url(t) {
            None => Err("Invalid URL"@),
            Some(p) => check_parsed_spec(l, p),
        }
    }
}

/// Checks a download URL before it is queued.
pub fn validate_task_url(url: &str) -> (r: Result<(), String>)
    ensures
        result_view(r) == validate_spec(url@),
{
    let t = trimmed(url);
    if t.len() == 0 {
        return Err("URL is empty".to_string());
    }
    let l = to_lower(&t);
    if starts_with(&l, &lit("data:")) || starts_with(&l, &lit("blob:")) || starts_with(
        &l,
        &lit("javascript:"),
    ) {
        return Err("Unsupported URL scheme".to_string());
    }
    if starts_with(&l, &lit("magnet:")) {
        if !contains_chars(&l, &lit("xt=urn:btih:")) {
            return Err("Magnet links must include a hash (magnet:?xt=urn:btih:...)".to_string());
        }
        return Ok(());
    }
    let ts = string_of(&t);
    let parsed = match parse_url(ts.as_str()) {
        Some(p) => p,
        None => {
            return Err("Invalid URL".to_string());
        },
    };
    let ls = string_of(&l);
    check_parsed_url(ls.as_str(), &parsed)
}

/// A URL that parses with scheme `http` or with scheme `https` and names a
/// direct file or a torrent is accepted; and the scheme error comes
/// exactly for a parsed URL whose scheme is neither.
pub proof fn law_http_and_https_accepted(url: Seq<char>)
    ensures
        ({
            let t = trim(url, TrimSet::WhiteSpace);
            let l = lower(t);
            t.len() > 0 && !has_prefix(l, "data:"@) && !has_prefix(l, "blob:"@) && !has_prefix(
                l,
                "javascript:"@,
            ) && !has_prefix(l, "magnet:"@) && (is_direct_file_url_spec(l)
                || is_torrent_url_spec(l)) && (parsed_url(t) matches Some(p) && (p.0 == "http"@
                || p.0 == "https"@))
        }) ==> validate_spec(url) == Ok::<(), Seq<char>>(()),
        ({
            let t = trim(url, TrimSet::WhiteSpace);
            let l = lower(t);
            t.len() > 0 && !has_prefix(l, "data:"@) && !has_prefix(l, "blob:"@) && !has_prefix(
                l,
                "javascript:"@,
            ) && !has_prefix(l, "magnet:"@) && parsed_url(t) is Some
        }) ==> (validate_spec(url) == Err::<(), Seq<char>>("URL must be http, https, or magnet"@)
            <==> (parsed_url(trim(url, TrimSet::WhiteSpace)).unwrap().0 != "http"@
            && parsed_url(trim(url, TrimSet::WhiteSpace)).unwrap().0 != "https"@)),
{
    reveal_strlit("URL must be http, https, or magnet");
    reveal_strlit("URL looks like a search page \u{2014} paste a direct magnet, .torrent, file, or video link");
    let a = "URL must be http, https, or magnet"@;
    let b = "URL looks like a search page \u{2014} paste a direct magnet, .torrent, file, or video link"@;
    assert(a[4] != b[4]);
}

/// A character that can stand in a host as `url_host` reads it.
pub open spec fn host_char(c: char) -> bool {
    !ends_authority(c) && c != '@' && c != ':'
}

proof fn lemma_authority_of_plain(host: Seq<char>, rest: Seq<char>)
    requires
        forall|k: int| 0 <= k < host.len() ==> host_char(#[trigger] host[k]),
        rest.len() == 0 || ends_authority(rest[0]),
    ensures
        authority_of(host + rest) == host,
    decreases host.len(),
{
    if host.len() == 0 {
        assert(host + rest =~= rest);
    } else {
        assert(host_char(host[0]));
        assert((host + rest)[0] == host[0]);
        assert((host + rest).drop_first() =~= host.drop_first() + rest);
        assert forall|k: int| 0 <= k < host.drop_first().len() implies host_char(
            #[trigger] host.drop_first()[k],
        ) by {
            assert(host.drop_first()[k] == host[k + 1]);
        }
        lemma_authority_of_plain(host.drop_first(), rest);
        assert(seq![host[0]] + host.drop_first() =~= host);
    }
}

proof fn lemma_split_without_sep(s: Seq<char>, sep: char)
    requires
        !crate::text::has_char(s, sep),
    ensures
        crate::text::split_on(s, sep) == seq![s],
{
    crate::text::lemma_split_scan_append(Seq::<char>::empty(), s, sep);
    assert(Seq::<char>::empty() + s =~= s);
    assert(crate::text::split_scan(Seq::<char>::empty(), sep).1 + s =~= s);
    assert(crate::text::split_on(s, sep) =~= seq![s]);
}

/// The host of `scheme://host` followed by nothing or by a path, query or
/// fragment is that host, when the scheme holds no `:` and the host no
/// `/ \ ? # @ :`.
pub proof fn law_url_host(scheme: Seq<char>, host: Seq<char>, rest: Seq<char>)
    requires
        !crate::text::has_char(scheme, ':'),
        forall|k: int| 0 <= k < host.len() ==> host_char(#[trigger] host[k]),
        rest.len() == 0 || ends_authority(rest[0]),
    ensures
        url_host(scheme + "://"@ + host + rest) == host,
{
    reveal_strlit("://");
    let l = scheme + "://"@ + host + rest;
    let n = scheme.len() as int;
    assert(l.subrange(n, n + 3) =~= "://"@);
    assert(occurs_at(l, "://"@, n));
    assert forall|j: int| 0 <= j < n implies !occurs_at(l, "://"@, j) by {
        if occurs_at(l, "://"@, j) {
            assert(l.subrange(j, j + 3)[0] == l[j]);
            assert(l[j] == scheme[j]);
        }
    }
    assert(first_scheme_mark(l, n));
    let k = choose|k: int| first_scheme_mark(l, k);
    lemma_first_mark_unique(l, n, k);
    assert(after_scheme(l) =~= host + rest);
    lemma_authority_of_plain(host, rest);
    assert(!crate::text::has_char(host, '@')) by {
        if crate::text::has_char(host, '@') {
            let j = choose|j: int| 0 <= j < host.len() && host[j] == '@';
            assert(host_char(host[j]));
        }
    }
    assert(!crate::text::has_char(host, ':')) by {
        if crate::text::has_char(host, ':') {
            let j = choose|j: int| 0 <= j < host.len() && host[j] == ':';
            assert(host_char(host[j]));
        }
    }
    lemma_split_without_sep(host, '@');
    lemma_split_without_sep(host, ':');
}

/// Every URL whose host is a listed video site, or a subdomain of one
/// (any label, a dot, then the site), goes to yt-dlp unless it is a magnet,
/// a torrent or a direct file.
pub proof fn law_video_sites_and_subdomains_go_to_ytdlp(
    url: Seq<char>,
    force_ytdlp: bool,
    scheme: Seq<char>,
    host: Seq<char>,
    label: Seq<char>,
    i: int,
    rest: Seq<char>,
)
    requires
        0 <= i < video_hosts().len(),
        host == video_hosts()[i] || host == label + seq!['.'] + video_hosts()[i],
        !crate::text::has_char(scheme, ':'),
        forall|k: int| 0 <= k < host.len() ==> host_char(#[trigger] host[k]),
        rest.len() == 0 || ends_authority(rest[0]),
        lower_trimmed(url) == scheme + "://"@ + host + rest,
        !has_prefix(lower_trimmed(url), "magnet:"@),
        !is_torrent_url_spec(lower_trimmed(url)),
        !is_direct_file_url_spec(lower_trimmed(url)),
    ensures
        classify_spec(url, force_ytdlp) == TaskType::Ytdlp,
{
    law_url_host(scheme, host, rest);
    if host != video_hosts()[i] {
        let d = seq!['.'] + video_hosts()[i];
        assert(host.skip(host.len() - d.len()) =~= d);
        assert(has_suffix(host, d));
    }
    assert(is_video_host(host));
}

} // verus!
