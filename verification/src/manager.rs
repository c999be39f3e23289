//! The download manager's decisions: how a task is started, how aria2's
//! answers change a task, and what happens after.
use vstd::prelude::*;
use vstd::string::StrSliceExecFns;
use vstd::utf8::encode_utf8;
use crate::aria2::{
    is_metadata_spec, is_metadata_status, is_seeder, is_seeder_spec, map_status, map_status_spec,
    parse_i64, parse_i64_or_zero, AddOptions, Aria2Status, BtSettings,
};
use crate::config::{hex_encode, hex_spec, Config};
use crate::paths::{file_name, file_name_exec, parent_text, path_parent};
use crate::router::{
    classify_spec, classify_sync, is_direct_file_url, is_direct_file_url_spec, is_torrent_url,
    is_torrent_url_spec, lower_trimmed, parse_url, parsed_url, UrlParts,
};
use crate::store::{category_or_inbox, clone_opt, opt_view, Task, TaskStatus, TaskType};
use crate::text::{
    before_char, before_char_exec, chars_of, contains, contains_chars, find,
    has_prefix, lit, lower, occurs_at, slice, starts_with, string_of, to_lower, trim, trim_chars,
    trimmed, utf8_len, utf8_len_at_least, TrimSet,
};
use crate::ytdlp::{DownloadOpts, YtdlpRunner};

verus! {

// ---------------------------------------------------------------------------
// Task identity towards qBittorrent clients
// ---------------------------------------------------------------------------

/// The SHA-256 digest of a byte string.
pub uninterp spec fn sha256_of(data: Seq<u8>) -> Seq<u8>;

/// `sha2::Sha256::digest`: the digest is named, not stated; it is 32 bytes
/// long.
#[verifier::external_body]
fn sha256_digest(data: &Vec<u8>) -> (r: Vec<u8>)
    ensures
        r@ == sha256_of(data@),
        r@.len() == 32,
{
    <sha2::Sha256 as sha2::Digest>::digest(data.as_slice()).to_vec()
}

/// The info hash a task shows to qBittorrent clients, from the digest of
/// its identifier: the first 20 bytes, in lower-case hexadecimal.
pub fn info_hash_from_digest(digest: &Vec<u8>) -> (r: String)
    requires
        digest@.len() >= 20,
    ensures
        r@ == hex_spec(digest@.take(20)),
{
    let mut first: Vec<u8> = Vec::new();
    let mut i: usize = 0;
    while i < 20
        invariant
            i <= 20,
            digest@.len() >= 20,
            first@ == digest@.take(i as int),
        decreases 20 - i,
    {
        first.push(digest[i]);
        i = i + 1;
        assert(first@ =~= digest@.take(i as int));
    }
    hex_encode(&first)
}

/// The info hash of a task: its identifier's UTF-8 bytes, hashed with
/// SHA-256, first 20 bytes in hexadecimal.
pub fn task_info_hash(task: &Task) -> (r: String)
    ensures
        r@ == hex_spec(sha256_of(encode_utf8(task.id@)).take(20)),
{
    let bytes = task.id.as_str().as_bytes_vec();
    let d = sha256_digest(&bytes);
    info_hash_from_digest(&d)
}

/// The category shown to qBittorrent clients.
pub fn qbit_category(task: &Task) -> (r: String)
    ensures
        r@ == category_or_inbox(task.category@),
{
    if task.category.as_str().is_empty() {
        "inbox".to_string()
    } else {
        task.category.clone()
    }
}

// ---------------------------------------------------------------------------
// Magnets and BitTorrent
// ---------------------------------------------------------------------------

/// The info hash in a magnet link: what follows the leftmost
/// `xt=urn:btih:` of the trimmed, lower-cased link, up to the next `&`,
/// trimmed; only when its UTF-8 encoding is at least 32 bytes long.
pub open spec fn magnet_infohash_spec(url: Seq<char>) -> Option<Seq<char>> {
    let l = lower_trimmed(url);
    if !contains(l, "xt=urn:btih:"@) {
        None
    } else {
        let pos = first_occurrence(l, "xt=urn:btih:"@);
        let hash = trim(before_char(l.skip(pos + 12), '&'), TrimSet::WhiteSpace);
        if utf8_len(hash) >= 32 {
            Some(hash)
        } else {
            None
        }
    }
}

/// The leftmost index at which `p` occurs in `s` (when it does).
pub open spec fn first_occurrence(s: Seq<char>, p: Seq<char>) -> int {
    choose|i: int| occurs_at(s, p, i) && forall|j: int| 0 <= j < i ==> !occurs_at(s, p, j)
}

pub fn magnet_infohash(url: &str) -> (r: Option<String>)
    ensures
        opt_view(r) == magnet_infohash_spec(url@),
{
    proof {
        reveal_strlit("xt=urn:btih:");
    }
    let l = to_lower(&trimmed(url));
    let pat = lit("xt=urn:btih:");
    assert(pat@.len() == 12);
    match find(&l, &pat) {
        None => None,
        Some(pos) => {
            proof {
                assert(occurs_at(l@, pat@, pos as int) && forall|j: int|
                    0 <= j < pos ==> !occurs_at(l@, pat@, j));
                let fo = first_occurrence(l@, pat@);
                assert(occurs_at(l@, pat@, fo) && forall|j: int|
                    0 <= j < fo ==> !occurs_at(l@, pat@, j));
                assert(fo == pos);
            }
            let rest = slice(&l, pos + 12, l.len());
            assert(rest@ =~= l@.skip(pos + 12));
            let hash = trim_chars(&before_char_exec(&rest, '&'), TrimSet::WhiteSpace);
            if utf8_len_at_least(&hash, 32) {
                Some(string_of(&hash))
            } else {
                None
            }
        },
    }
}

/// The URL is a magnet link or a `.torrent` file.
pub open spec fn is_bt_task_spec(url: Seq<char>) -> bool {
    has_prefix(lower_trimmed(url), "magnet:"@) || is_torrent_url_spec(lower_trimmed(url))
}

pub fn is_bt_task(url: &str) -> (r: bool)
    ensures
        r == is_bt_task_spec(url@),
{
    let l = to_lower(&trimmed(url));
    starts_with(&l, &lit("magnet:")) || is_torrent_url(string_of(&l).as_str())
}

/// aria2's error says that it does not know the download's gid.
pub fn aria2_gid_not_found(message: &str) -> (r: bool)
    ensures
        r == contains(lower(message@), "not found"@),
{
    contains_chars(&to_lower(&chars_of(message)), &lit("not found"))
}

/// aria2's error says that the torrent is already being downloaded.
pub fn is_already_registered(message: &str) -> (r: bool)
    ensures
        r == contains(message@, "already registered"@),
{
    contains_chars(&chars_of(message), &lit("already registered"))
}

// ---------------------------------------------------------------------------
// Referers
// ---------------------------------------------------------------------------

/// The referer sent with a plain download: the one given; else the file
/// host's own page for akirabox links; else the URL's origin with a `/`.
pub open spec fn infer_referer_spec(url: Seq<char>, referer: Option<Seq<char>>) -> Option<Seq<char>> {
    if referer is Some {
        referer
    } else if contains(lower(url), "akirabox."@) {
        Some("https://akirabox.to/"@)
    } else {
        match parsed_url(trim(url, TrimSet::WhiteSpace)) {
            Some(p) => Some(p.3 + "/"@),
            None => None,
        }
    }
}

/// The referer made of a parsed URL's origin.
pub fn origin_referer(parts: &Option<UrlParts>) -> (r: Option<String>)
    ensures
        opt_view(r) == match *parts {
            Some(p) => Some(p.origin@ + "/"@),
            None => None,
        },
{
    match parts {
        Some(p) => {
            let mut o = chars_of(p.origin.as_str());
            o.push('/');
            proof {
                reveal_strlit("/");
            }
            Some(string_of(&o))
        },
        None => None,
    }
}

pub fn infer_referer(url: &str, referer: &Option<String>) -> (r: Option<String>)
    ensures
        opt_view(r) == infer_referer_spec(url@, opt_view(*referer)),
{
    if referer.is_some() {
        return clone_opt(referer);
    }
    if contains_chars(&to_lower(&chars_of(url)), &lit("akirabox.")) {
        return Some("https://akirabox.to/".to_string());
    }
    let t = string_of(&trimmed(url));
    let parts = parse_url(t.as_str());
    origin_referer(&parts)
}

// ---------------------------------------------------------------------------
// Starting a task
// ---------------------------------------------------------------------------

/// The category a new task is filed under: the one asked for, else the
/// configured default.
pub fn task_category(requested: &str, default_category: &str) -> (r: String)
    ensures
        r@ == if requested@.len() == 0 {
            default_category@
        } else {
            requested@
        },
{
    if requested.is_empty() {
        string_of(&chars_of(default_category))
    } else {
        string_of(&chars_of(requested))
    }
}

/// The cookies sent with a download: the given ones, trimmed, unless blank.
pub fn start_cookies(cookies: &Option<String>) -> (r: Option<String>)
    ensures
        opt_view(r) == match *cookies {
            Some(c) => if trim(c@, TrimSet::WhiteSpace).len() > 0 {
                Some(trim(c@, TrimSet::WhiteSpace))
            } else {
                None
            },
            None => None,
        },
{
    match cookies {
        Some(c) => {
            let t = trimmed(c.as_str());
            if t.len() > 0 {
                Some(string_of(&t))
            } else {
                None
            }
        },
        None => None,
    }
}

/// Whether a new task that aria2 would get is first tried with yt-dlp's
/// simulation: not for direct files, magnets and torrents.
pub open spec fn needs_probe_spec(url: Seq<char>, force_ytdlp: bool) -> bool {
    classify_spec(url, force_ytdlp) == TaskType::Aria2 && !is_direct_file_url_spec(
        lower_trimmed(url),
    ) && !is_bt_task_spec(url)
}

pub fn needs_ytdlp_probe(url: &str, force_ytdlp: bool) -> (r: bool)
    ensures
        r == needs_probe_spec(url@, force_ytdlp),
{
    let t = classify_sync(url, force_ytdlp);
    let l = string_of(&to_lower(&trimmed(url)));
    t == TaskType::Aria2 && !is_direct_file_url(l.as_str()) && !is_bt_task(url)
}

/// Whether an aria2 task that aria2 refused is tried with yt-dlp: not for
/// direct files.
pub fn may_fall_back_to_ytdlp(url: &str) -> (r: bool)
    ensures
        r == !is_direct_file_url_spec(lower_trimmed(url@)),
{
    let l = string_of(&to_lower(&trimmed(url)));
    !is_direct_file_url(l.as_str())
}

/// How aria2 is handed a task.
#[derive(Debug, Clone)]
pub enum Aria2Start {
    /// A magnet link, with its info hash when it has one.
    Magnet { hash: Option<String> },
    /// A `.torrent` file, fetched and handed over as data.
    Torrent,
    /// Any other URL.
    Uri,
}

pub fn aria2_start_kind(url: &str) -> (r: Aria2Start)
    ensures
        has_prefix(lower_trimmed(url@), "magnet:"@) ==> (r matches Aria2Start::Magnet { hash }
            && opt_view(hash) == magnet_infohash_spec(url@)),
        !has_prefix(lower_trimmed(url@), "magnet:"@) && is_torrent_url_spec(lower_trimmed(url@))
            ==> r is Torrent,
        !has_prefix(lower_trimmed(url@), "magnet:"@) && !is_torrent_url_spec(lower_trimmed(url@))
            ==> r is Uri,
{
    let l = to_lower(&trimmed(url));
    if starts_with(&l, &lit("magnet:")) {
        Aria2Start::Magnet { hash: magnet_infohash(url) }
    } else if is_torrent_url(string_of(&l).as_str()) {
        Aria2Start::Torrent
    } else {
        Aria2Start::Uri
    }
}

pub open spec fn bt_view(b: Option<BtSettings>) -> Option<(Seq<char>, u32, u32, i64, i64)> {
    match b {
        Some(x) => Some(
            (x.seed_ratio_text@, x.seed_time, x.max_peers, x.max_upload_limit, x.max_download_limit),
        ),
        None => None,
    }
}

fn clone_bt(b: &BtSettings) -> (r: BtSettings)
    ensures
        bt_view(Some(r)) == bt_view(Some(*b)),
{
    BtSettings {
        seed_ratio_text: b.seed_ratio_text.clone(),
        seed_time: b.seed_time,
        max_peers: b.max_peers,
        max_upload_limit: b.max_upload_limit,
        max_download_limit: b.max_download_limit,
    }
}

/// The aria2 options for starting a task: its directory and cookies; the
/// file name only for direct files; a magnet gets no referer, a torrent
/// and a plain URL the inferred one; magnets and torrents are BitTorrent
/// downloads, with the limits.
pub fn aria2_add_options(
    task: &Task,
    kind: &Aria2Start,
    dir: &str,
    cookies: &Option<String>,
    bt_settings: &BtSettings,
    referer: &Option<String>,
) -> (r: AddOptions)
    ensures
        r.dir@ == dir@,
        opt_view(r.cookies) == opt_view(*cookies),
        opt_view(r.filename) == if is_direct_file_url_spec(lower_trimmed(task.url@)) {
            opt_view(task.filename)
        } else {
            None
        },
        r.bt == !(kind is Uri),
        opt_view(r.referer) == if kind is Magnet {
            None
        } else {
            opt_view(*referer)
        },
        bt_view(r.bt_settings) == if r.bt {
            bt_view(Some(*bt_settings))
        } else {
            None
        },
{
    let l = string_of(&to_lower(&trimmed(task.url.as_str())));
    let filename = if is_direct_file_url(l.as_str()) {
        clone_opt(&task.filename)
    } else {
        None
    };
    let bt = match kind {
        Aria2Start::Uri => false,
        _ => true,
    };
    AddOptions {
        dir: string_of(&chars_of(dir)),
        referer: match kind {
            Aria2Start::Magnet { .. } => None,
            _ => clone_opt(referer),
        },
        filename,
        cookies: clone_opt(cookies),
        bt,
        bt_settings: if bt {
            Some(clone_bt(bt_settings))
        } else {
            None
        },
    }
}

/// Records that aria2 took the task under `gid` (an empty gid is not
/// recorded).
pub fn record_aria2_start(task: &mut Task, gid: &str, now: i64)
    ensures
        opt_view(final(task).backend_gid) == if gid@.len() > 0 {
            Some(gid@)
        } else {
            opt_view(old(task).backend_gid)
        },
        final(task).status == TaskStatus::Downloading,
        final(task).updated_at == now,
        same_but_backend_and_status(*final(task), *old(task)),
{
    if !gid.is_empty() {
        task.backend_gid = Some(string_of(&chars_of(gid)));
    }
    task.status = TaskStatus::Downloading;
    task.updated_at = now;
}

/// The two tasks agree on all but their backend gid, status and update
/// time.
pub open spec fn same_but_backend_and_status(a: Task, b: Task) -> bool {
    &&& a.id@ == b.id@
    &&& a.url@ == b.url@
    &&& a.task_type == b.task_type
    &&& a.category@ == b.category@
    &&& opt_view(a.filename) == opt_view(b.filename)
    &&& opt_view(a.save_path) == opt_view(b.save_path)
    &&& a.done_bytes == b.done_bytes && a.total_bytes == b.total_bytes && a.speed == b.speed
    &&& a.upload_speed == b.upload_speed && a.connections == b.connections
    &&& a.num_seeders == b.num_seeders && a.uploaded_bytes == b.uploaded_bytes
    &&& a.seeding == b.seeding
    &&& opt_view(a.error) == opt_view(b.error)
    &&& opt_view(a.referer) == opt_view(b.referer)
    &&& opt_view(a.quality) == opt_view(b.quality)
    &&& opt_view(a.source) == opt_view(b.source)
    &&& a.created_at == b.created_at
    &&& a.completed_at == b.completed_at
}

/// The task failed with `message`.
pub fn mark_failed(task: &mut Task, message: &str, now: i64)
    ensures
        final(task).status == TaskStatus::Failed,
        opt_view(final(task).error) == Some(message@),
        final(task).updated_at == now,
        opt_view(final(task).backend_gid) == opt_view(old(task).backend_gid),
        final(task).id@ == old(task).id@,
        final(task).url@ == old(task).url@,
        final(task).task_type == old(task).task_type,
{
    task.status = TaskStatus::Failed;
    task.error = Some(string_of(&chars_of(message)));
    task.updated_at = now;
}

// ---------------------------------------------------------------------------
// yt-dlp tasks
// ---------------------------------------------------------------------------

/// How yt-dlp is run under the current settings.
pub fn runner_from_config(cfg: &Config, use_aria2: bool) -> (r: YtdlpRunner)
    ensures
        r.binary@ == cfg.ytdlp_path@,
        r.ffmpeg_path@ == cfg.ffmpeg_path@,
        r.aria2_secret@ == cfg.aria2_rpc_secret@,
        r.use_aria2 == use_aria2,
        r.quality@ == cfg.ytdlp_quality@,
        opt_view(r.cookies_file) == opt_view(cfg.ytdlp_cookies_file),
{
    YtdlpRunner {
        binary: cfg.ytdlp_path.clone(),
        ffmpeg_path: cfg.ffmpeg_path.clone(),
        aria2_secret: cfg.aria2_rpc_secret.clone(),
        use_aria2,
        quality: cfg.ytdlp_quality.clone(),
        cookies_file: clone_opt(&cfg.ytdlp_cookies_file),
    }
}

/// The yt-dlp download of a task, into `output_dir`.
pub fn ytdlp_download_opts(task: &Task, output_dir: &str) -> (r: DownloadOpts)
    ensures
        r.url@ == task.url@,
        r.output_dir@ == output_dir@,
        opt_view(r.referer) == opt_view(task.referer),
        opt_view(r.quality) == opt_view(task.quality),
{
    DownloadOpts {
        url: task.url.clone(),
        output_dir: string_of(&chars_of(output_dir)),
        referer: clone_opt(&task.referer),
        quality: clone_opt(&task.quality),
    }
}

/// Progress reported by yt-dlp: the byte counts, and the file name once
/// known.
pub fn apply_ytdlp_progress(
    task: &mut Task,
    done: i64,
    total: i64,
    speed: i64,
    file_name: &Option<String>,
    now: i64,
)
    ensures
        final(task).done_bytes == done,
        final(task).total_bytes == total,
        final(task).speed == speed,
        opt_view(final(task).filename) == match *file_name {
            Some(n) => Some(n@),
            None => opt_view(old(task).filename),
        },
        final(task).updated_at == now,
        final(task).status == old(task).status,
        final(task).id@ == old(task).id@,
{
    task.done_bytes = done;
    task.total_bytes = total;
    task.speed = speed;
    if let Some(n) = file_name {
        task.filename = Some(n.clone());
    }
    task.updated_at = now;
}

/// The yt-dlp download finished.
pub fn mark_ytdlp_completed(task: &mut Task, now: i64)
    ensures
        final(task).status == TaskStatus::Completed,
        final(task).completed_at == Some(now),
        final(task).updated_at == now,
        final(task).id@ == old(task).id@,
        final(task).done_bytes == old(task).done_bytes,
        opt_view(final(task).filename) == opt_view(old(task).filename),
{
    task.status = TaskStatus::Completed;
    task.completed_at = Some(now);
    task.updated_at = now;
}

/// A task that is handed to yt-dlp starts over: no gid, no error, pending.
pub fn retry_with_ytdlp(task: &mut Task, now: i64)
    ensures
        final(task).task_type == TaskType::Ytdlp,
        final(task).status == TaskStatus::Pending,
        final(task).error is None,
        final(task).backend_gid is None,
        final(task).updated_at == now,
        final(task).id@ == old(task).id@,
        final(task).url@ == old(task).url@,
{
    task.task_type = TaskType::Ytdlp;
    task.status = TaskStatus::Pending;
    task.error = None;
    task.backend_gid = None;
    task.updated_at = now;
}

// ---------------------------------------------------------------------------
// Pause, resume, remove
// ---------------------------------------------------------------------------

/// What the download back end is asked to do for a pause or a removal.
#[derive(Debug, Clone)]
pub enum BackendAction {
    /// Ask aria2 about this gid.
    Aria2(String),
    /// Stop the task's yt-dlp process.
    StopYtdlp,
    /// Nothing to ask.
    Nothing,
}

pub fn backend_action(task: &Task) -> (r: BackendAction)
    ensures
        task.task_type == TaskType::Aria2 && task.backend_gid is Some ==> (r matches BackendAction::Aria2(
            g,
        ) && Some(g@) == opt_view(task.backend_gid)),
        task.task_type == TaskType::Aria2 && task.backend_gid is None ==> r is Nothing,
        task.task_type == TaskType::Ytdlp ==> r is StopYtdlp,
{
    match task.task_type {
        TaskType::Aria2 => match &task.backend_gid {
            Some(g) => BackendAction::Aria2(g.clone()),
            None => BackendAction::Nothing,
        },
        TaskType::Ytdlp => BackendAction::StopYtdlp,
    }
}

pub fn mark_paused(task: &mut Task, now: i64)
    ensures
        final(task).status == TaskStatus::Paused,
        final(task).updated_at == now,
        same_but_backend_and_status(*final(task), *old(task)),
        opt_view(final(task).backend_gid) == opt_view(old(task).backend_gid),
{
    task.status = TaskStatus::Paused;
    task.updated_at = now;
}

/// The info hash to look aria2 up by when an aria2 magnet task resumes.
pub fn resume_magnet_hash(task: &Task) -> (r: Option<String>)
    ensures
        opt_view(r) == if task.task_type == TaskType::Aria2 && has_prefix(task.url@, "magnet:"@) {
            magnet_infohash_spec(task.url@)
        } else {
            None
        },
{
    if task.task_type == TaskType::Aria2 && starts_with(&chars_of(task.url.as_str()), &lit("magnet:")) {
        magnet_infohash(task.url.as_str())
    } else {
        None
    }
}

/// A task resumes: it is downloading again; an aria2 task is no longer
/// complete.
pub fn mark_resumed(task: &mut Task, now: i64)
    ensures
        final(task).status == TaskStatus::Downloading,
        final(task).updated_at == now,
        final(task).completed_at == if old(task).task_type == TaskType::Aria2 {
            None
        } else {
            old(task).completed_at
        },
        final(task).id@ == old(task).id@,
        final(task).task_type == old(task).task_type,
        opt_view(final(task).backend_gid) == opt_view(old(task).backend_gid),
{
    task.status = TaskStatus::Downloading;
    if task.task_type == TaskType::Aria2 {
        task.completed_at = None;
    }
    task.updated_at = now;
}

// ---------------------------------------------------------------------------
// Polling aria2
// ---------------------------------------------------------------------------

/// What the poll does with an active task.
#[derive(Debug, Clone)]
pub enum PollPlan {
    /// Not an aria2 task, or one aria2 cannot be asked about.
    Skip,
    /// Ask aria2 for the status of this gid.
    Gid(String),
    /// Look the magnet's download up by this info hash first.
    FindByHash(String),
}

pub fn poll_plan(task: &Task) -> (r: PollPlan)
    ensures
        task.task_type != TaskType::Aria2 ==> r is Skip,
        task.task_type == TaskType::Aria2 && task.backend_gid is Some ==> (r matches PollPlan::Gid(g)
            && Some(g@) == opt_view(task.backend_gid)),
        task.task_type == TaskType::Aria2 && task.backend_gid is None ==> match r {
            PollPlan::FindByHash(h) => has_prefix(task.url@, "magnet:"@) && magnet_infohash_spec(
                task.url@,
            ) == Some(h@),
            PollPlan::Skip => !has_prefix(task.url@, "magnet:"@) || magnet_infohash_spec(
                task.url@,
            ) is None,
            PollPlan::Gid(_) => false,
        },
{
    if task.task_type != TaskType::Aria2 {
        return PollPlan::Skip;
    }
    match &task.backend_gid {
        Some(g) => PollPlan::Gid(g.clone()),
        None => {
            if starts_with(&chars_of(task.url.as_str()), &lit("magnet:")) {
                match magnet_infohash(task.url.as_str()) {
                    Some(h) => PollPlan::FindByHash(h),
                    None => PollPlan::Skip,
                }
            } else {
                PollPlan::Skip
            }
        },
    }
}

/// The message of a task whose download aria2 no longer knows.
pub open spec fn lost_message() -> Seq<char> {
    "aria2 lost track of this download (often after a container restart)"@
}

/// aria2 no longer knows the task's gid: forget it, and fail the task
/// unless it is complete.
pub fn mark_lost(task: &mut Task, now: i64)
    ensures
        final(task).backend_gid is None,
        old(task).status != TaskStatus::Completed ==> final(task).status == TaskStatus::Failed
            && opt_view(final(task).error) == Some(lost_message()) && final(task).updated_at == now,
        old(task).status == TaskStatus::Completed ==> final(task).status == TaskStatus::Completed
            && opt_view(final(task).error) == opt_view(old(task).error) && final(task).updated_at
            == old(task).updated_at,
        final(task).id@ == old(task).id@,
        final(task).url@ == old(task).url@,
{
    task.backend_gid = None;
    if task.status != TaskStatus::Completed {
        task.status = TaskStatus::Failed;
        task.error = Some(
            "aria2 lost track of this download (often after a container restart)".to_string(),
        );
        task.updated_at = now;
    }
}

/// The next step in finding the download that follows a magnet's
/// metadata download.
#[derive(Debug, Clone)]
pub enum HandoffStep {
    /// The content download is known.
    Found(String),
    /// Ask aria2 for a download that follows this gid.
    AskFollowing,
    /// Ask aria2 for the best download of this info hash.
    AskBest(String),
    /// There is none.
    NoneFound,
}

/// The first step: aria2 says which download follows this one.
pub fn handoff_start(st: &Aria2Status) -> (r: HandoffStep)
    ensures
        st.followed_by@.len() > 0 ==> (r matches HandoffStep::Found(g) && g@ == st.followed_by@[0]@),
        st.followed_by@.len() == 0 ==> r is AskFollowing,
{
    if st.followed_by.len() > 0 {
        HandoffStep::Found(st.followed_by[0].clone())
    } else {
        HandoffStep::AskFollowing
    }
}

/// After asking for a follower: use it; else, for a metadata download of
/// a magnet with an info hash, ask for the best download of that hash.
pub fn handoff_after_following(st: &Aria2Status, url: &str, follower: Option<String>) -> (r:
    HandoffStep)
    ensures
        follower is Some ==> (r matches HandoffStep::Found(g) && Some(g@) == opt_view(follower)),
        follower is None && is_metadata_spec(*st) && magnet_infohash_spec(url@) is Some ==> (r matches HandoffStep::AskBest(
            h,
        ) && Some(h@) == magnet_infohash_spec(url@)),
        follower is None && !(is_metadata_spec(*st) && magnet_infohash_spec(url@) is Some)
            ==> r is NoneFound,
{
    match follower {
        Some(g) => HandoffStep::Found(g),
        None => {
            if is_metadata_status(st) {
                match magnet_infohash(url) {
                    Some(h) => HandoffStep::AskBest(h),
                    None => HandoffStep::NoneFound,
                }
            } else {
                HandoffStep::NoneFound
            }
        },
    }
}

/// A found download is handed over to only when it is another gid.
pub fn handoff_target(gid: &str, found: &Option<String>) -> (r: Option<String>)
    ensures
        opt_view(r) == match *found {
            Some(g) => if g@ != gid@ {
                Some(g@)
            } else {
                None
            },
            None => None,
        },
{
    match found {
        Some(g) => {
            if crate::text::chars_eq(&chars_of(g.as_str()), &chars_of(gid)) {
                None
            } else {
                Some(g.clone())
            }
        },
        None => None,
    }
}

/// The task moves on to the content download `next` of its magnet: every
/// counter starts over.
pub fn reset_for_content_gid(task: &mut Task, next: &str, now: i64)
    ensures
        opt_view(final(task).backend_gid) == Some(next@),
        final(task).status == TaskStatus::Downloading,
        final(task).done_bytes == 0 && final(task).total_bytes == 0 && final(task).speed == 0,
        final(task).upload_speed == 0 && final(task).connections == 0,
        final(task).num_seeders == 0 && final(task).uploaded_bytes == 0,
        !final(task).seeding,
        final(task).error is None,
        final(task).completed_at is None,
        final(task).filename is None,
        final(task).updated_at == now,
        final(task).id@ == old(task).id@,
        final(task).url@ == old(task).url@,
        final(task).task_type == old(task).task_type,
        opt_view(final(task).save_path) == opt_view(old(task).save_path),
{
    task.backend_gid = Some(string_of(&chars_of(next)));
    task.status = TaskStatus::Downloading;
    task.done_bytes = 0;
    task.total_bytes = 0;
    task.speed = 0;
    task.upload_speed = 0;
    task.connections = 0;
    task.num_seeders = 0;
    task.uploaded_bytes = 0;
    task.seeding = false;
    task.error = None;
    task.completed_at = None;
    task.filename = None;
    task.updated_at = now;
}

/// How the caller sets a task's fractional progress after an update.
#[derive(Debug, Clone, Copy, PartialEq, Eq, Structural)]
pub enum ProgressNote {
    /// `done / total` in percent, or zero when the total is unknown.
    Ratio,
    /// 100 percent.
    Full,
}

/// The download is fully fetched: its total is known and reached.
pub open spec fn download_done_spec(st: Aria2Status) -> bool {
    parse_i64_or_zero(st.total_length@) > 0 && parse_i64_or_zero(st.completed_length@)
        >= parse_i64_or_zero(st.total_length@)
}

/// The status the task takes from aria2's: a metadata download is still
/// downloading; a fully fetched one is complete, even while aria2 seeds
/// it.
pub open spec fn polled_status(st: Aria2Status) -> TaskStatus {
    if is_metadata_spec(st) {
        TaskStatus::Downloading
    } else if download_done_spec(st) {
        TaskStatus::Completed
    } else {
        map_status_spec(st.status@)
    }
}

/// The completion time after an update: none for a metadata download;
/// kept, or now, for a complete one; else unchanged.
pub open spec fn polled_completed_at(old_at: Option<i64>, st: Aria2Status, now: i64) -> Option<i64> {
    if is_metadata_spec(st) {
        None
    } else if download_done_spec(st) || polled_status(st) == TaskStatus::Completed {
        match old_at {
            Some(t) => Some(t),
            None => Some(now),
        }
    } else {
        old_at
    }
}

/// The progress after an update: full when the download is fully
/// fetched, or when aria2 calls it complete and it had no completion time.
pub open spec fn polled_progress(old_at: Option<i64>, st: Aria2Status) -> ProgressNote {
    if !is_metadata_spec(st) && (download_done_spec(st) || (polled_status(st)
        == TaskStatus::Completed && old_at is None)) {
        ProgressNote::Full
    } else {
        ProgressNote::Ratio
    }
}

/// Updates an active aria2 task from its status.
pub fn apply_aria2_status(task: &mut Task, st: &Aria2Status, now: i64) -> (p: ProgressNote)
    ensures
        ({
            let bt = is_bt_task_spec(old(task).url@);
            let total = parse_i64_or_zero(st.total_length@);
            let done = parse_i64_or_zero(st.completed_length@);
            &&& final(task).total_bytes == total
            &&& final(task).done_bytes == done
            &&& final(task).speed == if !is_metadata_spec(*st) && download_done_spec(*st) {
                0
            } else {
                parse_i64_or_zero(st.download_speed@)
            }
            &&& final(task).upload_speed == if bt {
                parse_i64_or_zero(st.upload_speed@)
            } else {
                0
            }
            &&& final(task).connections == if bt {
                parse_i64_or_zero(st.connections@) as i64 as i32
            } else {
                0
            }
            &&& final(task).num_seeders == if bt {
                parse_i64_or_zero(st.num_seeders@) as i64 as i32
            } else {
                0
            }
            &&& final(task).uploaded_bytes == if bt {
                parse_i64_or_zero(st.upload_length@)
            } else {
                0
            }
            &&& opt_view(final(task).filename) == if st.files@.len() > 0 {
                file_name(st.files@[0].path@)
            } else {
                opt_view(old(task).filename)
            }
            &&& opt_view(final(task).save_path) == if st.files@.len() > 0 {
                path_parent(st.files@[0].path@)
            } else {
                opt_view(old(task).save_path)
            }
            &&& final(task).status == polled_status(*st)
            &&& final(task).completed_at == polled_completed_at(old(task).completed_at, *st, now)
            &&& final(task).seeding == (bt && download_done_spec(*st) && !is_metadata_spec(*st)
                && is_seeder_spec(st.seeder@))
            &&& opt_view(final(task).error) == if polled_status(*st) == TaskStatus::Failed
                && st.error_message@.len() > 0 {
                Some(st.error_message@)
            } else {
                opt_view(old(task).error)
            }
            &&& final(task).updated_at == now
            &&& p == polled_progress(old(task).completed_at, *st)
            &&& final(task).id@ == old(task).id@
            &&& final(task).url@ == old(task).url@
            &&& final(task).task_type == old(task).task_type
            &&& opt_view(final(task).backend_gid) == opt_view(old(task).backend_gid)
        }),
{
    let bt = is_bt_task(task.url.as_str());
    let is_metadata = is_metadata_status(st);
    let is_seeding = is_seeder(st);
    let total = parse_i64(st.total_length.as_str());
    let done = parse_i64(st.completed_length.as_str());
    let speed = parse_i64(st.download_speed.as_str());
    task.total_bytes = total;
    task.done_bytes = done;
    task.speed = speed;
    if bt {
        task.upload_speed = parse_i64(st.upload_speed.as_str());
        task.connections = parse_i64(st.connections.as_str()) as i32;
        task.num_seeders = parse_i64(st.num_seeders.as_str()) as i32;
        task.uploaded_bytes = parse_i64(st.upload_length.as_str());
    } else {
        task.upload_speed = 0;
        task.connections = 0;
        task.num_seeders = 0;
        task.uploaded_bytes = 0;
    }
    let mut progress = ProgressNote::Ratio;
    if st.files.len() > 0 {
        let path = st.files[0].path.as_str();
        task.filename = match file_name_exec(&chars_of(path)) {
            Some(n) => Some(string_of(&n)),
            None => None,
        };
        task.save_path = parent_text(path);
    }
    task.status = map_status(st.status.as_str());
    let download_done = total > 0 && done >= total;
    if is_metadata {
        task.status = TaskStatus::Downloading;
        task.completed_at = None;
    } else if download_done {
        task.status = TaskStatus::Completed;
        task.completed_at = Some(
            match task.completed_at {
                Some(t) => t,
                None => now,
            },
        );
        progress = ProgressNote::Full;
        task.speed = 0;
    }
    task.seeding = bt && download_done && !is_metadata && is_seeding;
    if task.status == TaskStatus::Failed && !st.error_message.as_str().is_empty() {
        task.error = Some(st.error_message.clone());
    }
    if task.status == TaskStatus::Completed && !is_metadata && task.completed_at.is_none() {
        task.completed_at = Some(now);
        progress = ProgressNote::Full;
    }
    task.updated_at = now;
    progress
}

/// What follows an update of an active task.
#[derive(Debug, Clone, Copy, PartialEq, Eq, Structural)]
pub enum PollFollowUp {
    Nothing,
    /// The task has just completed: run the completion hooks.
    Completed,
    /// The task has just failed and is no BitTorrent download: see whether
    /// yt-dlp can take it.
    TryYtdlp,
}

pub open spec fn follow_up_spec(
    status: TaskStatus,
    prev: TaskStatus,
    is_metadata: bool,
    url: Seq<char>,
) -> PollFollowUp {
    if status == TaskStatus::Completed && prev != TaskStatus::Completed {
        if is_metadata {
            PollFollowUp::Nothing
        } else {
            PollFollowUp::Completed
        }
    } else if status == TaskStatus::Failed && prev != TaskStatus::Failed && !is_bt_task_spec(url) {
        PollFollowUp::TryYtdlp
    } else {
        PollFollowUp::Nothing
    }
}

pub fn follow_up(task: &Task, prev: TaskStatus, is_metadata: bool) -> (r: PollFollowUp)
    ensures
        r == follow_up_spec(task.status, prev, is_metadata, task.url@),
{
    if task.status == TaskStatus::Completed && prev != TaskStatus::Completed {
        if is_metadata {
            PollFollowUp::Nothing
        } else {
            PollFollowUp::Completed
        }
    } else if task.status == TaskStatus::Failed && prev != TaskStatus::Failed && !is_bt_task(
        task.url.as_str(),
    ) {
        PollFollowUp::TryYtdlp
    } else {
        PollFollowUp::Nothing
    }
}

/// The gid of a completed BitTorrent task whose seeding is watched.
pub fn seeding_gid(task: &Task) -> (r: Option<String>)
    ensures
        opt_view(r) == if task.task_type == TaskType::Aria2 && is_bt_task_spec(task.url@) {
            opt_view(task.backend_gid)
        } else {
            None
        },
{
    if task.task_type == TaskType::Aria2 && is_bt_task(task.url.as_str()) {
        clone_opt(&task.backend_gid)
    } else {
        None
    }
}

/// aria2 could not report on a completed task: when it lost the gid,
/// forget it; either way the task no longer seeds.  Returns whether the
/// task changed.
pub fn seeding_lost(task: &mut Task, gid_not_found: bool, now: i64) -> (changed: bool)
    ensures
        changed == (gid_not_found || old(task).seeding || old(task).upload_speed > 0),
        changed ==> !final(task).seeding && final(task).upload_speed == 0 && final(task).updated_at
            == now,
        gid_not_found ==> final(task).backend_gid is None,
        !gid_not_found ==> opt_view(final(task).backend_gid) == opt_view(old(task).backend_gid),
        !changed ==> final(task).seeding == old(task).seeding && final(task).upload_speed == old(
            task,
        ).upload_speed && final(task).updated_at == old(task).updated_at,
        final(task).status == old(task).status,
        final(task).id@ == old(task).id@,
{
    if gid_not_found {
        task.backend_gid = None;
        task.seeding = false;
        task.upload_speed = 0;
        task.updated_at = now;
        true
    } else if task.seeding || task.upload_speed > 0 {
        task.seeding = false;
        task.upload_speed = 0;
        task.updated_at = now;
        true
    } else {
        false
    }
}

/// Refreshes a completed BitTorrent task's seeding figures.
pub fn refresh_seeding(task: &mut Task, st: &Aria2Status, now: i64)
    ensures
        final(task).seeding == (download_done_spec(*st) && !is_metadata_spec(*st) && is_seeder_spec(
            st.seeder@,
        )),
        final(task).upload_speed == if final(task).seeding {
            parse_i64_or_zero(st.upload_speed@)
        } else {
            0
        },
        final(task).connections == parse_i64_or_zero(st.connections@) as i64 as i32,
        final(task).num_seeders == parse_i64_or_zero(st.num_seeders@) as i64 as i32,
        final(task).uploaded_bytes == parse_i64_or_zero(st.upload_length@),
        final(task).updated_at == now,
        final(task).status == old(task).status,
        final(task).done_bytes == old(task).done_bytes,
        final(task).total_bytes == old(task).total_bytes,
        final(task).id@ == old(task).id@,
        opt_view(final(task).backend_gid) == opt_view(old(task).backend_gid),
{
    let total = parse_i64(st.total_length.as_str());
    let done = parse_i64(st.completed_length.as_str());
    let download_done = total > 0 && done >= total;
    let is_metadata = is_metadata_status(st);
    let is_seeding = is_seeder(st);
    task.seeding = download_done && !is_metadata && is_seeding;
    task.upload_speed = parse_i64(st.upload_speed.as_str());
    task.connections = parse_i64(st.connections.as_str()) as i32;
    task.num_seeders = parse_i64(st.num_seeders.as_str()) as i32;
    task.uploaded_bytes = parse_i64(st.upload_length.as_str());
    if !task.seeding {
        task.upload_speed = 0;
    }
    task.updated_at = now;
}

// ---------------------------------------------------------------------------
// Torrent files
// ---------------------------------------------------------------------------

/// The base64 alphabet (RFC 4648, standard).
pub open spec fn b64_char(v: int) -> char {
    if v < 26 {
        ((v + 65) as u32) as char
    } else if v < 52 {
        ((v - 26 + 97) as u32) as char
    } else if v < 62 {
        ((v - 52 + 48) as u32) as char
    } else if v == 62 {
        '+'
    } else {
        '/'
    }
}

/// Standard base64 with padding: every three bytes become four
/// characters; a last group of one or two bytes is padded with `=`.
pub open spec fn base64_spec(b: Seq<u8>) -> Seq<char>
    decreases b.len(),
{
    if b.len() == 0 {
        Seq::empty()
    } else {
        let b0 = b[0] as int;
        let b1 = if b.len() > 1 {
            b[1] as int
        } else {
            0
        };
        let b2 = if b.len() > 2 {
            b[2] as int
        } else {
            0
        };
        let c0 = b64_char(b0 / 4);
        let c1 = b64_char((b0 % 4) * 16 + b1 / 16);
        let c2 = b64_char((b1 % 16) * 4 + b2 / 64);
        let c3 = b64_char(b2 % 64);
        if b.len() == 1 {
            seq![c0, c1, '=', '=']
        } else if b.len() == 2 {
            seq![c0, c1, c2, '=']
        } else {
            seq![c0, c1, c2, c3] + base64_spec(b.skip(3))
        }
    }
}

/// `base64::engine::general_purpose::STANDARD.encode`: standard base64
/// with padding, as RFC 4648 defines it.
#[verifier::external_body]
fn base64_standard(bytes: &Vec<u8>) -> (r: String)
    ensures
        r@ == base64_spec(bytes@),
{
    <base64::engine::GeneralPurpose as base64::Engine>::encode(
        &base64::engine::general_purpose::STANDARD,
        bytes.as_slice(),
    )
}

/// A fetched `.torrent` file as aria2 takes it: in base64.
pub fn torrent_payload(bytes: &Vec<u8>) -> (r: String)
    ensures
        r@ == base64_spec(bytes@),
{
    base64_standard(bytes)
}

// ---------------------------------------------------------------------------
// URLs in log lines
// ---------------------------------------------------------------------------

/// How many leading characters of `t` fit in `n` bytes of UTF-8.
pub open spec fn chars_within(t: Seq<char>, n: int) -> int
    decreases t.len(),
{
    if t.len() == 0 || crate::text::utf8_width(t[0]) > n {
        0
    } else {
        1 + chars_within(t.drop_first(), n - crate::text::utf8_width(t[0]))
    }
}

/// A URL as it is written to the log: trimmed, and when longer than 100
/// bytes, cut to the characters that fit in 100 bytes and followed by `…`.
pub open spec fn log_url_spec(url: Seq<char>) -> Seq<char> {
    let t = trim(url, TrimSet::WhiteSpace);
    if utf8_len(t) <= 100 {
        t
    } else {
        t.take(chars_within(t, 100)) + seq!['\u{2026}']
    }
}

proof fn lemma_chars_within_bound(t: Seq<char>, n: int)
    ensures
        0 <= chars_within(t, n) <= t.len(),
    decreases t.len(),
{
    if !(t.len() == 0 || crate::text::utf8_width(t[0]) > n) {
        lemma_chars_within_bound(t.drop_first(), n - crate::text::utf8_width(t[0]));
    }
}

fn char_width(c: char) -> (w: u64)
    ensures
        w == crate::text::utf8_width(c),
{
    let u = c as u32;
    if u < 0x80 {
        1
    } else if u < 0x800 {
        2
    } else if u < 0x10000 {
        3
    } else {
        4
    }
}

/// A URL as it is written to the log.
pub fn log_url(url: &str) -> (r: String)
    ensures
        r@ == log_url_spec(url@),
{
    let t = trimmed(url);
    if !utf8_len_at_least(&t, 101) {
        return string_of(&t);
    }
    let mut i: usize = 0;
    let mut budget: u64 = 100;
    proof {
        assert(t@.skip(0) =~= t@);
    }
    while i < t.len() && char_width(t[i]) <= budget
        invariant
            i <= t.len(),
            budget <= 100,
            chars_within(t@, 100) == i + chars_within(t@.skip(i as int), budget as int),
        decreases t.len() - i,
    {
        let w = char_width(t[i]);
        assert(t@.skip(i as int)[0] == t@[i as int]);
        assert(t@.skip(i as int).drop_first() =~= t@.skip(i + 1));
        budget = budget - w;
        i = i + 1;
    }
    proof {
        if i < t.len() {
            assert(t@.skip(i as int)[0] == t@[i as int]);
        } else {
            assert(t@.skip(i as int).len() == 0);
        }
    }
    let mut cut = crate::text::slice(&t, 0, i);
    assert(cut@ =~= t@.take(i as int));
    cut.push('\u{2026}');
    string_of(&cut)
}

} // verus!
