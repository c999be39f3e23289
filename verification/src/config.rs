//! Server settings: their defaults, how the settings file and the settings
//! API change them, what is shown publicly, and who may call the API.
use vstd::prelude::*;
use rand::RngCore;
use crate::paths::{has_root, join_path, join_path_exec};
use crate::store::{opt_view, clone_opt};
use crate::text::{
    chars_eq, chars_of, concat, copy_chars, ends_with, has_char, has_prefix, has_suffix, join,
    join_chars, lemma_join_first, lemma_join_split, lemma_split_pieces, lit, split_char, split_on,
    string_of, views,
};

verus! {

/// The server's settings.  Directories are path texts.
#[derive(Debug, Clone)]
pub struct Config {
    pub addr: String,
    pub token: String,
    pub download_dir: String,
    pub config_dir: String,
    pub aria2_rpc_url: String,
    pub aria2_rpc_secret: String,
    pub ytdlp_path: String,
    pub ffmpeg_path: String,
    pub default_category: String,
    pub setup_complete: bool,
    pub ytdlp_quality: String,
    pub ytdlp_cookies_file: Option<String>,
    pub webhook_url: Option<String>,
    pub webhook_enabled: bool,
    pub jellyfin_refresh_url: Option<String>,
    pub cors_origins: Vec<String>,
    pub rate_limit_per_minute: u32,
    pub qbit_username: String,
    pub qbit_password: String,
    pub organize_enabled: bool,
    pub tmdb_api_key: String,
    pub organize_dry_run: bool,
    pub organize_movies_dir: String,
    pub organize_tv_dir: String,
    pub organize_scan_secs: u64,
    pub bt_seed_time: u32,
    pub bt_max_peers: u32,
    pub max_upload_kbps: u32,
    pub max_download_kbps: u32,
}

/// The settings kept in `config.json`; absent entries leave the current
/// setting alone.
#[derive(Debug, Clone)]
pub struct FileConfig {
    pub token: Option<String>,
    pub ytdlp_path: Option<String>,
    pub ffmpeg_path: Option<String>,
    pub default_category: Option<String>,
    pub setup_complete: Option<bool>,
    pub ytdlp_quality: Option<String>,
    pub ytdlp_cookies_file: Option<String>,
    pub webhook_url: Option<String>,
    pub webhook_enabled: Option<bool>,
    pub jellyfin_refresh_url: Option<String>,
    pub cors_origins: Option<Vec<String>>,
    pub rate_limit_per_minute: Option<u32>,
    pub qbit_username: Option<String>,
    pub qbit_password: Option<String>,
}

pub open spec fn strings_view(v: Seq<String>) -> Seq<Seq<char>> {
    v.map_values(|s: String| s@)
}

fn clone_strings(v: &Vec<String>) -> (r: Vec<String>)
    ensures
        strings_view(r@) == strings_view(v@),
{
    let mut out: Vec<String> = Vec::new();
    let mut i: usize = 0;
    while i < v.len()
        invariant
            i <= v.len(),
            strings_view(out@) == strings_view(v@.take(i as int)),
        decreases v.len() - i,
    {
        let ghost before = strings_view(out@);
        out.push(v[i].clone());
        i = i + 1;
        assert(strings_view(out@) =~= before.push(v@[i - 1]@));
        assert(strings_view(v@.take(i as int)) =~= strings_view(v@.take(i - 1)).push(
            v@[i - 1]@,
        ));
    }
    assert(v@.take(v.len() as int) =~= v@);
    out
}

/// The environment variables that the settings start from; each is
/// `None` when the variable is not set.
#[derive(Debug, Clone)]
pub struct EnvSettings {
    /// `DL_SRV_ADDR`
    pub addr: Option<String>,
    /// `DL_SRV_TOKEN`
    pub token: Option<String>,
    /// `DOWNLOAD_DIR`
    pub download_dir: Option<String>,
    /// `CONFIG_DIR`
    pub config_dir: Option<String>,
    /// `ARIA2_RPC_URL`
    pub aria2_rpc_url: Option<String>,
    /// `ARIA2_RPC_SECRET`
    pub aria2_rpc_secret: Option<String>,
    /// `YTDLP_PATH`
    pub ytdlp_path: Option<String>,
    /// `FFMPEG_PATH`
    pub ffmpeg_path: Option<String>,
}

/// The value of a variable, or a fallback when it is not set.
pub open spec fn or_fallback(v: Option<String>, fallback: Seq<char>) -> Seq<char> {
    match v {
        Some(s) => s@,
        None => fallback,
    }
}

fn value_or(v: &Option<String>, fallback: &str) -> (r: String)
    ensures
        r@ == or_fallback(*v, fallback@),
{
    match v {
        Some(s) => s.clone(),
        None => fallback.to_string(),
    }
}

/// The settings before `config.json` is read: the environment where it
/// sets them, and the defaults otherwise.
pub open spec fn defaults_spec(env: EnvSettings, c: Config) -> bool {
    &&& c.addr@ == or_fallback(env.addr, "0.0.0.0:35778"@)
    &&& c.token@ == or_fallback(env.token, ""@)
    &&& c.download_dir@ == or_fallback(env.download_dir, "/data/downloads"@)
    &&& c.config_dir@ == or_fallback(env.config_dir, "/config"@)
    &&& c.aria2_rpc_url@ == or_fallback(env.aria2_rpc_url, "http://127.0.0.1:6800/jsonrpc"@)
    &&& c.aria2_rpc_secret@ == or_fallback(env.aria2_rpc_secret, "dl-srv-secret"@)
    &&& c.ytdlp_path@ == or_fallback(env.ytdlp_path, "yt-dlp"@)
    &&& c.ffmpeg_path@ == or_fallback(env.ffmpeg_path, "ffmpeg"@)
    &&& c.default_category@ == "inbox"@
    &&& !c.setup_complete
    &&& c.ytdlp_quality@ == "best"@
    &&& c.ytdlp_cookies_file.is_none()
    &&& c.webhook_url.is_none()
    &&& !c.webhook_enabled
    &&& c.jellyfin_refresh_url.is_none()
    &&& c.cors_origins@.len() == 0
    &&& c.rate_limit_per_minute == 60
    &&& c.qbit_username@ == "admin"@
    &&& c.qbit_password@ == "adminadmin"@
    &&& !c.organize_enabled
    &&& c.tmdb_api_key@ == ""@
    &&& !c.organize_dry_run
    &&& c.organize_movies_dir@ == "movies"@
    &&& c.organize_tv_dir@ == "tv"@
    &&& c.organize_scan_secs == 0
    &&& c.bt_seed_time == 0
    &&& c.bt_max_peers == 55
    &&& c.max_upload_kbps == 0
    &&& c.max_download_kbps == 0
}

/// The settings that the server starts from, before `config.json`.
pub fn config_defaults(env: &EnvSettings) -> (c: Config)
    ensures
        defaults_spec(*env, c),
{
    Config {
        addr: value_or(&env.addr, "0.0.0.0:35778"),
        token: value_or(&env.token, ""),
        download_dir: value_or(&env.download_dir, "/data/downloads"),
        config_dir: value_or(&env.config_dir, "/config"),
        aria2_rpc_url: value_or(&env.aria2_rpc_url, "http://127.0.0.1:6800/jsonrpc"),
        aria2_rpc_secret: value_or(&env.aria2_rpc_secret, "dl-srv-secret"),
        ytdlp_path: value_or(&env.ytdlp_path, "yt-dlp"),
        ffmpeg_path: value_or(&env.ffmpeg_path, "ffmpeg"),
        default_category: "inbox".to_string(),
        setup_complete: false,
        ytdlp_quality: "best".to_string(),
        ytdlp_cookies_file: None,
        webhook_url: None,
        webhook_enabled: false,
        jellyfin_refresh_url: None,
        cors_origins: Vec::new(),
        rate_limit_per_minute: 60,
        qbit_username: "admin".to_string(),
        qbit_password: "adminadmin".to_string(),
        organize_enabled: false,
        tmdb_api_key: "".to_string(),
        organize_dry_run: false,
        organize_movies_dir: "movies".to_string(),
        organize_tv_dir: "tv".to_string(),
        organize_scan_secs: 0,
        bt_seed_time: 0,
        bt_max_peers: 55,
        max_upload_kbps: 0,
        max_download_kbps: 0,
    }
}

/// `a` and `b` agree on the settings that neither `config.json` nor the
/// settings API changes.
pub open spec fn agree_on_env(a: Config, b: Config) -> bool {
    &&& a.addr@ == b.addr@
    &&& a.download_dir@ == b.download_dir@
    &&& a.config_dir@ == b.config_dir@
    &&& a.aria2_rpc_url@ == b.aria2_rpc_url@
    &&& a.aria2_rpc_secret@ == b.aria2_rpc_secret@
    &&& a.organize_enabled == b.organize_enabled
    &&& a.tmdb_api_key@ == b.tmdb_api_key@
    &&& a.organize_dry_run == b.organize_dry_run
    &&& a.organize_movies_dir@ == b.organize_movies_dir@
    &&& a.organize_tv_dir@ == b.organize_tv_dir@
    &&& a.organize_scan_secs == b.organize_scan_secs
}

/// `a` and `b` agree on the BitTorrent limits.
pub open spec fn agree_on_bt(a: Config, b: Config) -> bool {
    &&& a.bt_seed_time == b.bt_seed_time
    &&& a.bt_max_peers == b.bt_max_peers
    &&& a.max_upload_kbps == b.max_upload_kbps
    &&& a.max_download_kbps == b.max_download_kbps
}

/// The settings that `config.json` holds, apart from the token.
pub open spec fn agree_on_file(a: Config, b: Config) -> bool {
    &&& a.ytdlp_path@ == b.ytdlp_path@
    &&& a.ffmpeg_path@ == b.ffmpeg_path@
    &&& a.default_category@ == b.default_category@
    &&& a.setup_complete == b.setup_complete
    &&& a.ytdlp_quality@ == b.ytdlp_quality@
    &&& opt_view(a.ytdlp_cookies_file) == opt_view(b.ytdlp_cookies_file)
    &&& opt_view(a.webhook_url) == opt_view(b.webhook_url)
    &&& a.webhook_enabled == b.webhook_enabled
    &&& opt_view(a.jellyfin_refresh_url) == opt_view(b.jellyfin_refresh_url)
    &&& strings_view(a.cors_origins@) == strings_view(b.cors_origins@)
    &&& a.rate_limit_per_minute == b.rate_limit_per_minute
    &&& a.qbit_username@ == b.qbit_username@
    &&& a.qbit_password@ == b.qbit_password@
}

/// `n` random bytes (`rand::thread_rng().fill_bytes` on a buffer of `n`
/// bytes).  Only the length is stated: the bytes are random.
#[verifier::external_body]
pub(crate) fn random_bytes(n: usize) -> (r: Vec<u8>)
    ensures
        r@.len() == n,
{
    let mut bytes = vec![0u8; n];
    rand::thread_rng().fill_bytes(&mut bytes);
    bytes
}

/// The lower-case hexadecimal digit for `n < 16`.
pub open spec fn hex_digit(n: nat) -> char {
    if n < 10 {
        ((n + 0x30) as u32) as char
    } else {
        ((n - 10 + 0x61) as u32) as char
    }
}

/// Lower-case hexadecimal, two digits per byte, high half first.
pub open spec fn hex_spec(b: Seq<u8>) -> Seq<char>
    decreases b.len(),
{
    if b.len() == 0 {
        Seq::empty()
    } else {
        hex_spec(b.drop_last()) + seq![
            hex_digit((b.last() / 16) as nat),
            hex_digit((b.last() % 16) as nat),
        ]
    }
}

pub proof fn lemma_hex_len(b: Seq<u8>)
    ensures
        hex_spec(b).len() == 2 * b.len(),
    decreases b.len(),
{
    if b.len() > 0 {
        lemma_hex_len(b.drop_last());
    }
}

/// A lower-case hexadecimal digit: `0`-`9` or `a`-`f`.
pub open spec fn is_lower_hex(c: char) -> bool {
    ('0' <= c && c <= '9') || ('a' <= c && c <= 'f')
}

/// Lower-case hexadecimal text holds only lower-case hexadecimal digits.
pub proof fn lemma_hex_lower(b: Seq<u8>)
    ensures
        forall|i: int| 0 <= i < hex_spec(b).len() ==> is_lower_hex(#[trigger] hex_spec(b)[i]),
    decreases b.len(),
{
    if b.len() > 0 {
        lemma_hex_lower(b.drop_last());
        let h = hex_spec(b.drop_last());
        let hi = (b.last() / 16) as nat;
        let lo = (b.last() % 16) as nat;
        assert(is_lower_hex(hex_digit(hi)) && is_lower_hex(hex_digit(lo))) by {
            assert(hi < 16 && lo < 16);
            assert(forall|n: nat| n < 16 ==> is_lower_hex(#[trigger] hex_digit(n)));
        }
        let t = h + seq![hex_digit(hi), hex_digit(lo)];
        assert forall|i: int| 0 <= i < t.len() implies is_lower_hex(#[trigger] t[i]) by {
            if i < h.len() {
                assert(t[i] == h[i]);
            }
        }
    }
}

/// `hex::encode`: its documentation promises lower-case characters, two per
/// byte, most significant half first.
#[verifier::external_body]
pub(crate) fn hex_encode(b: &Vec<u8>) -> (r: String)
    ensures
        r@ == hex_spec(b@),
{
    hex::encode(b)
}

/// A new random API token: 48 lower-case hexadecimal characters.
pub fn random_token() -> (r: String)
    ensures
        exists|b: Seq<u8>| b.len() == 24 && r@ == hex_spec(b),
        r@.len() == 48,
        forall|i: int| 0 <= i < r@.len() ==> is_lower_hex(#[trigger] r@[i]),
{
    let b = random_bytes(24);
    let r = hex_encode(&b);
    proof {
        lemma_hex_len(b@);
        lemma_hex_lower(b@);
    }
    r
}

/// A path part that names an entry: not empty, not `.` and not `..`.
pub open spec fn normal_part(x: Seq<char>) -> bool {
    x.len() > 0 && x != seq!['.'] && x != seq!['.', '.']
}

/// The parts that name entries, in order.
pub open spec fn normal_parts(ps: Seq<Seq<char>>) -> Seq<Seq<char>>
    decreases ps.len(),
{
    if ps.len() == 0 {
        Seq::empty()
    } else if normal_part(ps.last()) {
        normal_parts(ps.drop_last()).push(ps.last())
    } else {
        normal_parts(ps.drop_last())
    }
}

/// A category as a path below the download directory: its `/`-separated
/// parts that name entries, joined by `/`. A leading `/`, empty parts, `.`
/// and `..` are dropped, so no category leaves the download directory.
pub open spec fn relative_category(cat: Seq<char>) -> Seq<char> {
    join(normal_parts(split_on(cat, '/')), seq!['/'])
}

/// The category a download is filed under: the given one, or the default
/// when none is given.
pub open spec fn category_or_default(c: Config, category: Seq<char>) -> Seq<char> {
    if category.len() == 0 {
        c.default_category@
    } else {
        category
    }
}

/// The directory where downloads of `category` land: the download
/// directory joined with the category (or the default category when none is
/// given), taken as a relative path.
pub open spec fn category_dir_spec(c: Config, category: Seq<char>) -> Seq<char> {
    join_path(c.download_dir@, relative_category(category_or_default(c, category)))
}

proof fn lemma_normal_parts(ps: Seq<Seq<char>>)
    requires
        forall|i: int| 0 <= i < ps.len() ==> !has_char(#[trigger] ps[i], '/'),
    ensures
        forall|i: int|
            0 <= i < normal_parts(ps).len() ==> normal_part(#[trigger] normal_parts(ps)[i])
                && !has_char(normal_parts(ps)[i], '/'),
        (forall|i: int| 0 <= i < ps.len() ==> normal_part(#[trigger] ps[i])) ==> normal_parts(ps)
            == ps,
    decreases ps.len(),
{
    if ps.len() > 0 {
        assert forall|i: int| 0 <= i < ps.drop_last().len() implies !has_char(
            #[trigger] ps.drop_last()[i],
            '/',
        ) by {
            assert(ps.drop_last()[i] == ps[i]);
        }
        lemma_normal_parts(ps.drop_last());
        let r = normal_parts(ps.drop_last());
        assert(!has_char(ps.last(), '/')) by {
            assert(ps[ps.len() - 1] == ps.last());
        }
        if normal_part(ps.last()) {
            assert forall|i: int| 0 <= i < r.push(ps.last()).len() implies normal_part(
                #[trigger] r.push(ps.last())[i],
            ) && !has_char(r.push(ps.last())[i], '/') by {
                if i < r.len() {
                    assert(r.push(ps.last())[i] == r[i]);
                }
            }
        }
        if forall|i: int| 0 <= i < ps.len() ==> normal_part(#[trigger] ps[i]) {
            assert forall|i: int| 0 <= i < ps.drop_last().len() implies normal_part(
                #[trigger] ps.drop_last()[i],
            ) by {
                assert(ps.drop_last()[i] == ps[i]);
            }
            assert(normal_part(ps[ps.len() - 1]));
            assert(ps.drop_last().push(ps.last()) =~= ps);
        }
    } else {
        assert(normal_parts(ps) =~= ps);
    }
}

/// Downloads of every category land under the download directory: the
/// category directory is the download directory followed by a relative
/// path; and a category whose parts all name entries (no leading `/`, no
/// empty part, no `.` or `..`) is joined as it is.
pub proof fn law_category_dir_under_download_dir(c: Config, category: Seq<char>)
    ensures
        has_prefix(category_dir_spec(c, category), c.download_dir@),
        !has_root(relative_category(category_or_default(c, category))),
        (forall|i: int|
            0 <= i < split_on(category_or_default(c, category), '/').len() ==> normal_part(
                #[trigger] split_on(category_or_default(c, category), '/')[i],
            )) ==> category_dir_spec(c, category) == join_path(
            c.download_dir@,
            category_or_default(c, category),
        ),
{
    let cat = category_or_default(c, category);
    let ps = split_on(cat, '/');
    lemma_split_pieces(cat, '/');
    lemma_normal_parts(ps);
    let np = normal_parts(ps);
    let rel = relative_category(cat);
    if np.len() > 0 {
        lemma_join_first(np, seq!['/']);
        assert(!has_char(np[0], '/'));
        assert(np[0][0] != '/') by {
            assert(np[0].len() > 0);
        }
    } else {
        assert(rel.len() == 0);
    }
    assert(!has_root(rel));
    let d = c.download_dir@;
    let r = join_path(d, rel);
    if d.len() > 0 && d.last() != '/' {
        assert(r.take(d.len() as int) =~= d);
    } else {
        assert(r.take(d.len() as int) =~= d);
    }
    if forall|i: int| 0 <= i < ps.len() ==> normal_part(#[trigger] ps[i]) {
        lemma_join_split(cat, '/');
    }
}

/// The settings loaded from `config.json` on top of `self`.
pub open spec fn merged_spec(old: Config, new: Config, fc: FileConfig) -> bool {
    &&& agree_on_env(new, old)
    &&& agree_on_bt(new, old)
    &&& new.token@ == (if old.token@.len() == 0 && fc.token.is_some() {
        fc.token.unwrap()@
    } else {
        old.token@
    })
    &&& new.ytdlp_path@ == (match fc.ytdlp_path {
        Some(v) => v@,
        None => old.ytdlp_path@,
    })
    &&& new.ffmpeg_path@ == (match fc.ffmpeg_path {
        Some(v) => v@,
        None => old.ffmpeg_path@,
    })
    &&& new.default_category@ == (match fc.default_category {
        Some(v) => v@,
        None => old.default_category@,
    })
    &&& new.setup_complete == (match fc.setup_complete {
        Some(v) => v,
        None => old.setup_complete,
    })
    &&& new.ytdlp_quality@ == (match fc.ytdlp_quality {
        Some(v) => v@,
        None => old.ytdlp_quality@,
    })
    &&& opt_view(new.ytdlp_cookies_file) == opt_view(fc.ytdlp_cookies_file)
    &&& opt_view(new.webhook_url) == opt_view(fc.webhook_url)
    &&& new.webhook_enabled == (match fc.webhook_enabled {
        Some(v) => v,
        None => old.webhook_enabled,
    })
    &&& opt_view(new.jellyfin_refresh_url) == opt_view(fc.jellyfin_refresh_url)
    &&& strings_view(new.cors_origins@) == (match fc.cors_origins {
        Some(v) => strings_view(v@),
        None => strings_view(old.cors_origins@),
    })
    &&& new.rate_limit_per_minute == (match fc.rate_limit_per_minute {
        Some(v) => v,
        None => old.rate_limit_per_minute,
    })
    &&& new.qbit_username@ == (match fc.qbit_username {
        Some(v) => v@,
        None => old.qbit_username@,
    })
    &&& new.qbit_password@ == (match fc.qbit_password {
        Some(v) => v@,
        None => old.qbit_password@,
    })
}

/// What `config.json` holds for a configuration.
pub open spec fn file_config_spec(c: Config, fc: FileConfig) -> bool {
    &&& opt_view(fc.token) == Some(c.token@)
    &&& opt_view(fc.ytdlp_path) == Some(c.ytdlp_path@)
    &&& opt_view(fc.ffmpeg_path) == Some(c.ffmpeg_path@)
    &&& opt_view(fc.default_category) == Some(c.default_category@)
    &&& fc.setup_complete == Some(c.setup_complete)
    &&& opt_view(fc.ytdlp_quality) == Some(c.ytdlp_quality@)
    &&& opt_view(fc.ytdlp_cookies_file) == opt_view(c.ytdlp_cookies_file)
    &&& opt_view(fc.webhook_url) == opt_view(c.webhook_url)
    &&& fc.webhook_enabled == Some(c.webhook_enabled)
    &&& opt_view(fc.jellyfin_refresh_url) == opt_view(c.jellyfin_refresh_url)
    &&& fc.cors_origins.is_some() && strings_view(fc.cors_origins.unwrap()@) == strings_view(
        c.cors_origins@,
    )
    &&& fc.rate_limit_per_minute == Some(c.rate_limit_per_minute)
    &&& opt_view(fc.qbit_username) == Some(c.qbit_username@)
    &&& opt_view(fc.qbit_password) == Some(c.qbit_password@)
}

fn pick_string(v: &Option<String>, cur: &String) -> (r: String)
    ensures
        r@ == (match v {
            Some(x) => x@,
            None => cur@,
        }),
{
    match v {
        Some(x) => x.clone(),
        None => cur.clone(),
    }
}

fn normal_part_exec(x: &Vec<char>) -> (r: bool)
    ensures
        r == normal_part(x@),
{
    if x.len() == 0 {
        return false;
    }
    if x.len() == 1 && x[0] == '.' {
        assert(x@ =~= seq!['.']);
        return false;
    }
    if x.len() == 2 && x[0] == '.' && x[1] == '.' {
        assert(x@ =~= seq!['.', '.']);
        return false;
    }
    assert(x@ != seq!['.'] && x@ != seq!['.', '.']) by {
        if x@ == seq!['.'] {
            assert(x@[0] == '.');
        }
        if x@ == seq!['.', '.'] {
            assert(x@[0] == '.' && x@[1] == '.');
        }
    }
    true
}

/// A category as a path below the download directory.
pub fn relative_category_exec(cat: &Vec<char>) -> (r: Vec<char>)
    ensures
        r@ == relative_category(cat@),
{
    let parts = split_char(cat, '/');
    let mut kept: Vec<Vec<char>> = Vec::new();
    let mut i: usize = 0;
    while i < parts.len()
        invariant
            i <= parts.len(),
            views(kept@) == normal_parts(views(parts@).take(i as int)),
        decreases parts.len() - i,
    {
        assert(views(parts@).take(i + 1).drop_last() =~= views(parts@).take(i as int));
        assert(views(parts@).take(i + 1).last() == parts@[i as int]@);
        if normal_part_exec(&parts[i]) {
            let ghost before = views(kept@);
            let p = copy_chars(&parts[i]);
            kept.push(p);
            assert(views(kept@) =~= before.push(parts@[i as int]@));
        }
        i = i + 1;
    }
    assert(views(parts@).take(parts.len() as int) =~= views(parts@));
    let sep: Vec<char> = vec!['/'];
    assert(sep@ =~= seq!['/']);
    join_chars(&kept, &sep)
}

impl Config {
    /// The directory where downloads of `category` land.
    pub fn category_dir(&self, category: &str) -> (r: String)
        ensures
            r@ == category_dir_spec(*self, category@),
            has_prefix(r@, self.download_dir@),
    {
        proof {
            law_category_dir_under_download_dir(*self, category@);
        }
        let dir = chars_of(self.download_dir.as_str());
        let cat = chars_of(category);
        let sub = if cat.len() == 0 {
            chars_of(self.default_category.as_str())
        } else {
            cat
        };
        let rel = relative_category_exec(&sub);
        string_of(&join_path_exec(&dir, &rel))
    }

    /// Replaces the API token with a fresh random one and returns it; the
    /// caller saves the settings.
    pub fn regenerate_token(&mut self) -> (r: String)
        ensures
            final(self).token@ == r@,
            r@.len() == 48,
            exists|b: Seq<u8>| b.len() == 24 && r@ == hex_spec(b),
            forall|i: int| 0 <= i < r@.len() ==> is_lower_hex(#[trigger] r@[i]),
            agree_on_env(*final(self), *old(self)),
            agree_on_bt(*final(self), *old(self)),
            agree_on_file(*final(self), *old(self)),
    {
        let t = random_token();
        self.token = t.clone();
        t
    }

    /// Gives the settings a random token when they have none; says whether
    /// it did (the settings must then be saved).
    pub fn ensure_token(&mut self) -> (generated: bool)
        ensures
            generated == (old(self).token@.len() == 0),
            generated ==> final(self).token@.len() == 48,
            generated ==> forall|i: int|
                0 <= i < final(self).token@.len() ==> is_lower_hex(#[trigger] final(self).token@[i]),
            !generated ==> final(self).token@ == old(self).token@,
            agree_on_env(*final(self), *old(self)),
            agree_on_bt(*final(self), *old(self)),
            agree_on_file(*final(self), *old(self)),
    {
        if self.token.as_str().is_empty() {
            let t = random_token();
            self.token = t;
            true
        } else {
            false
        }
    }

    /// Applies the settings read from `config.json`: an environment token
    /// wins over the file's, the optional URLs and cookie file are taken as
    /// they are, and every other entry overrides only when present.
    pub fn merge_file_config(&mut self, fc: &FileConfig)
        ensures
            merged_spec(*old(self), *final(self), *fc),
    {
        if self.token.as_str().is_empty() {
            if let Some(t) = &fc.token {
                self.token = t.clone();
            }
        }
        self.ytdlp_path = pick_string(&fc.ytdlp_path, &self.ytdlp_path);
        self.ffmpeg_path = pick_string(&fc.ffmpeg_path, &self.ffmpeg_path);
        self.default_category = pick_string(&fc.default_category, &self.default_category);
        if let Some(v) = fc.setup_complete {
            self.setup_complete = v;
        }
        self.ytdlp_quality = pick_string(&fc.ytdlp_quality, &self.ytdlp_quality);
        self.ytdlp_cookies_file = clone_opt(&fc.ytdlp_cookies_file);
        self.webhook_url = clone_opt(&fc.webhook_url);
        if let Some(v) = fc.webhook_enabled {
            self.webhook_enabled = v;
        }
        self.jellyfin_refresh_url = clone_opt(&fc.jellyfin_refresh_url);
        if let Some(v) = &fc.cors_origins {
            self.cors_origins = clone_strings(v);
        }
        if let Some(v) = fc.rate_limit_per_minute {
            self.rate_limit_per_minute = v;
        }
        self.qbit_username = pick_string(&fc.qbit_username, &self.qbit_username);
        self.qbit_password = pick_string(&fc.qbit_password, &self.qbit_password);
    }

    /// What `config.json` holds for these settings.
    pub fn file_config(&self) -> (fc: FileConfig)
        ensures
            file_config_spec(*self, fc),
    {
        FileConfig {
            token: Some(self.token.clone()),
            ytdlp_path: Some(self.ytdlp_path.clone()),
            ffmpeg_path: Some(self.ffmpeg_path.clone()),
            default_category: Some(self.default_category.clone()),
            setup_complete: Some(self.setup_complete),
            ytdlp_quality: Some(self.ytdlp_quality.clone()),
            ytdlp_cookies_file: clone_opt(&self.ytdlp_cookies_file),
            webhook_url: clone_opt(&self.webhook_url),
            webhook_enabled: Some(self.webhook_enabled),
            jellyfin_refresh_url: clone_opt(&self.jellyfin_refresh_url),
            cors_origins: Some(clone_strings(&self.cors_origins)),
            rate_limit_per_minute: Some(self.rate_limit_per_minute),
            qbit_username: Some(self.qbit_username.clone()),
            qbit_password: Some(self.qbit_password.clone()),
        }
    }
}

/// Settings saved to `config.json` and loaded again on a start with no token
/// in the environment come back as they were: token and every file-backed
/// setting, while the environment-derived settings stay those of the start.
pub proof fn law_saved_settings_reload(saved: Config, fc: FileConfig, start: Config, loaded: Config)
    requires
        file_config_spec(saved, fc),
        start.token@.len() == 0,
        merged_spec(start, loaded, fc),
    ensures
        loaded.token@ == saved.token@,
        agree_on_file(loaded, saved),
        agree_on_env(loaded, start),
{
}

// ---------------------------------------------------------------------------
// Public settings
// ---------------------------------------------------------------------------

/// The settings the web UI may read.  The token is shown only until setup is
/// complete.
#[derive(Debug, Clone)]
pub struct PublicSettings {
    pub download_dir: String,
    pub default_category: String,
    pub ytdlp_path: String,
    pub ffmpeg_path: String,
    pub has_token: bool,
    pub setup_complete: bool,
    pub ytdlp_quality: String,
    pub ytdlp_cookies_file: Option<String>,
    pub webhook_url: Option<String>,
    pub webhook_enabled: bool,
    pub jellyfin_refresh_url: Option<String>,
    pub cors_origins: Vec<String>,
    pub rate_limit_per_minute: u32,
    pub qbit_username: String,
    pub token: Option<String>,
}

/// The settings the web UI may read; the token only before setup completes.
pub fn settings_public(cfg: &Config) -> (p: PublicSettings)
    ensures
        p.download_dir@ == cfg.download_dir@,
        p.default_category@ == cfg.default_category@,
        p.ytdlp_path@ == cfg.ytdlp_path@,
        p.ffmpeg_path@ == cfg.ffmpeg_path@,
        p.has_token == (cfg.token@.len() > 0),
        p.setup_complete == cfg.setup_complete,
        p.ytdlp_quality@ == cfg.ytdlp_quality@,
        opt_view(p.ytdlp_cookies_file) == opt_view(cfg.ytdlp_cookies_file),
        opt_view(p.webhook_url) == opt_view(cfg.webhook_url),
        p.webhook_enabled == cfg.webhook_enabled,
        opt_view(p.jellyfin_refresh_url) == opt_view(cfg.jellyfin_refresh_url),
        strings_view(p.cors_origins@) == strings_view(cfg.cors_origins@),
        p.rate_limit_per_minute == cfg.rate_limit_per_minute,
        p.qbit_username@ == cfg.qbit_username@,
        opt_view(p.token) == (if cfg.setup_complete {
            None
        } else {
            Some(cfg.token@)
        }),
{
    PublicSettings {
        download_dir: cfg.download_dir.clone(),
        default_category: cfg.default_category.clone(),
        ytdlp_path: cfg.ytdlp_path.clone(),
        ffmpeg_path: cfg.ffmpeg_path.clone(),
        has_token: !cfg.token.as_str().is_empty(),
        setup_complete: cfg.setup_complete,
        ytdlp_quality: cfg.ytdlp_quality.clone(),
        ytdlp_cookies_file: clone_opt(&cfg.ytdlp_cookies_file),
        webhook_url: clone_opt(&cfg.webhook_url),
        webhook_enabled: cfg.webhook_enabled,
        jellyfin_refresh_url: clone_opt(&cfg.jellyfin_refresh_url),
        cors_origins: clone_strings(&cfg.cors_origins),
        rate_limit_per_minute: cfg.rate_limit_per_minute,
        qbit_username: cfg.qbit_username.clone(),
        token: if cfg.setup_complete {
            None
        } else {
            Some(cfg.token.clone())
        },
    }
}

// ---------------------------------------------------------------------------
// Changing settings through the API
// ---------------------------------------------------------------------------

/// A settings change; absent entries are left alone.
#[derive(Debug, Clone)]
pub struct UpdateSettingsBody {
    pub default_category: Option<String>,
    pub ytdlp_path: Option<String>,
    pub ffmpeg_path: Option<String>,
    pub ytdlp_quality: Option<String>,
    pub ytdlp_cookies_file: Option<String>,
    pub webhook_url: Option<String>,
    pub webhook_enabled: Option<bool>,
    pub jellyfin_refresh_url: Option<String>,
    pub cors_origins: Option<Vec<String>>,
    pub rate_limit_per_minute: Option<u32>,
    pub qbit_username: Option<String>,
    pub qbit_password: Option<String>,
    pub bt_seed_time: Option<u32>,
    pub bt_max_peers: Option<u32>,
    pub max_upload_kbps: Option<u32>,
    pub max_download_kbps: Option<u32>,
}

pub open spec fn clamp_peers(v: u32) -> u32 {
    if v < 1 {
        1
    } else if v > 1000 {
        1000
    } else {
        v
    }
}

/// The settings after a change: each present entry replaces its setting
/// (the optional URLs and cookie file become set), the peer limit is
/// clamped to 1..=1000, and nothing else moves.
pub open spec fn applied_spec(old: Config, new: Config, b: UpdateSettingsBody) -> bool {
    &&& agree_on_env(new, old)
    &&& new.token@ == old.token@
    &&& new.setup_complete == old.setup_complete
    &&& new.default_category@ == (match b.default_category {
        Some(v) => v@,
        None => old.default_category@,
    })
    &&& new.ytdlp_path@ == (match b.ytdlp_path {
        Some(v) => v@,
        None => old.ytdlp_path@,
    })
    &&& new.ffmpeg_path@ == (match b.ffmpeg_path {
        Some(v) => v@,
        None => old.ffmpeg_path@,
    })
    &&& new.ytdlp_quality@ == (match b.ytdlp_quality {
        Some(v) => v@,
        None => old.ytdlp_quality@,
    })
    &&& opt_view(new.ytdlp_cookies_file) == (match b.ytdlp_cookies_file {
        Some(v) => Some(v@),
        None => opt_view(old.ytdlp_cookies_file),
    })
    &&& opt_view(new.webhook_url) == (match b.webhook_url {
        Some(v) => Some(v@),
        None => opt_view(old.webhook_url),
    })
    &&& new.webhook_enabled == (match b.webhook_enabled {
        Some(v) => v,
        None => old.webhook_enabled,
    })
    &&& opt_view(new.jellyfin_refresh_url) == (match b.jellyfin_refresh_url {
        Some(v) => Some(v@),
        None => opt_view(old.jellyfin_refresh_url),
    })
    &&& strings_view(new.cors_origins@) == (match b.cors_origins {
        Some(v) => strings_view(v@),
        None => strings_view(old.cors_origins@),
    })
    &&& new.rate_limit_per_minute == (match b.rate_limit_per_minute {
        Some(v) => v,
        None => old.rate_limit_per_minute,
    })
    &&& new.qbit_username@ == (match b.qbit_username {
        Some(v) => v@,
        None => old.qbit_username@,
    })
    &&& new.qbit_password@ == (match b.qbit_password {
        Some(v) => v@,
        None => old.qbit_password@,
    })
    &&& new.bt_seed_time == (match b.bt_seed_time {
        Some(v) => v,
        None => old.bt_seed_time,
    })
    &&& new.bt_max_peers == (match b.bt_max_peers {
        Some(v) => clamp_peers(v),
        None => old.bt_max_peers,
    })
    &&& new.max_upload_kbps == (match b.max_upload_kbps {
        Some(v) => v,
        None => old.max_upload_kbps,
    })
    &&& new.max_download_kbps == (match b.max_download_kbps {
        Some(v) => v,
        None => old.max_download_kbps,
    })
}

fn set_opt(v: &Option<String>, cur: &Option<String>) -> (r: Option<String>)
    ensures
        opt_view(r) == (match v {
            Some(x) => Some(x@),
            None => opt_view(*cur),
        }),
{
    match v {
        Some(x) => Some(x.clone()),
        None => clone_opt(cur),
    }
}

/// Applies a settings change.
pub fn apply_settings(cfg: &mut Config, body: &UpdateSettingsBody)
    ensures
        applied_spec(*old(cfg), *final(cfg), *body),
{
    cfg.default_category = pick_string(&body.default_category, &cfg.default_category);
    cfg.ytdlp_path = pick_string(&body.ytdlp_path, &cfg.ytdlp_path);
    cfg.ffmpeg_path = pick_string(&body.ffmpeg_path, &cfg.ffmpeg_path);
    cfg.ytdlp_quality = pick_string(&body.ytdlp_quality, &cfg.ytdlp_quality);
    cfg.ytdlp_cookies_file = set_opt(&body.ytdlp_cookies_file, &cfg.ytdlp_cookies_file);
    cfg.webhook_url = set_opt(&body.webhook_url, &cfg.webhook_url);
    if let Some(v) = body.webhook_enabled {
        cfg.webhook_enabled = v;
    }
    cfg.jellyfin_refresh_url = set_opt(&body.jellyfin_refresh_url, &cfg.jellyfin_refresh_url);
    if let Some(v) = &body.cors_origins {
        cfg.cors_origins = clone_strings(v);
    }
    if let Some(v) = body.rate_limit_per_minute {
        cfg.rate_limit_per_minute = v;
    }
    cfg.qbit_username = pick_string(&body.qbit_username, &cfg.qbit_username);
    cfg.qbit_password = pick_string(&body.qbit_password, &cfg.qbit_password);
    if let Some(v) = body.bt_seed_time {
        cfg.bt_seed_time = v;
    }
    if let Some(v) = body.bt_max_peers {
        cfg.bt_max_peers = if v < 1 {
            1
        } else if v > 1000 {
            1000
        } else {
            v
        };
    }
    if let Some(v) = body.max_upload_kbps {
        cfg.max_upload_kbps = v;
    }
    if let Some(v) = body.max_download_kbps {
        cfg.max_download_kbps = v;
    }
}

/// Completes the first-run setup: applies the settings, takes a non-empty
/// token, and marks setup complete.
pub fn apply_setup(cfg: &mut Config, body: &UpdateSettingsBody, token: &Option<String>)
    ensures
        final(cfg).setup_complete,
        final(cfg).token@ == (match token {
            Some(t) => if t@.len() > 0 {
                t@
            } else {
                old(cfg).token@
            },
            None => old(cfg).token@,
        }),
        ({
            let mid = Config { token: old(cfg).token, setup_complete: old(cfg).setup_complete, ..*final(cfg) };
            applied_spec(*old(cfg), mid, *body)
        }),
{
    apply_settings(cfg, body);
    let ghost applied = *cfg;
    let old_setup = cfg.setup_complete;
    if let Some(t) = token {
        if !t.as_str().is_empty() {
            cfg.token = t.clone();
        }
    }
    cfg.setup_complete = true;
    proof {
        let mid = Config { token: old(cfg).token, setup_complete: old(cfg).setup_complete, ..*cfg };
        assert(mid.token@ == applied.token@);
        assert(applied_spec(*old(cfg), mid, *body));
    }
}

// ---------------------------------------------------------------------------
// API access
// ---------------------------------------------------------------------------

/// Whether an API request may pass: reading `/setup` is open; everything
/// else needs `Authorization: Bearer <token>` or `X-Api-Token: <token>`.
pub open spec fn authorized_spec(
    path: Seq<char>,
    is_get: bool,
    authorization: Option<Seq<char>>,
    api_token: Option<Seq<char>>,
    token: Seq<char>,
) -> bool {
    (has_suffix(path, "/setup"@) && is_get) || (match authorization {
        Some(a) => a,
        None => Seq::empty(),
    }) == "Bearer "@ + token || api_token == Some(token)
}

/// Whether an API request may pass (header values that are not visible
/// ASCII are given as absent).
pub fn is_authorized(
    path: &str,
    is_get: bool,
    authorization: Option<&str>,
    api_token: Option<&str>,
    token: &str,
) -> (r: bool)
    ensures
        r == authorized_spec(
            path@,
            is_get,
            match authorization {
                Some(a) => Some(a@),
                None => None,
            },
            match api_token {
                Some(a) => Some(a@),
                None => None,
            },
            token@,
        ),
{
    let p = chars_of(path);
    let setup = lit("/setup");
    if ends_with(&p, &setup) && is_get {
        return true;
    }
    let t = chars_of(token);
    let auth = match authorization {
        Some(a) => chars_of(a),
        None => Vec::new(),
    };
    let expected = concat(&lit("Bearer "), &t);
    if chars_eq(&auth, &expected) {
        return true;
    }
    match api_token {
        Some(a) => {
            let av = chars_of(a);
            chars_eq(&av, &t)
        },
        None => false,
    }
}

} // verus!
