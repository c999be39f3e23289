//! The qBittorrent Web API that download managers such as Sonarr and
//! Radarr talk to: sessions, and how tasks look as torrents.
use vstd::prelude::*;
use vstd::utf8::encode_utf8;
use crate::aria2::strings_of;
use crate::config::{hex_encode, hex_spec, random_bytes, Config};
use crate::manager::{qbit_category, sha256_of, task_info_hash};
use crate::store::{category_or_inbox, clone_opt, opt_view, AddTaskInput, Task, TaskStatus};
use crate::text::{
    chars_eq, chars_of, concat, ends_with, has_prefix, has_suffix, lit, slice, split_char,
    split_on, starts_with, string_of, trim, trim_chars, TrimSet,
};

verus! {

// ---------------------------------------------------------------------------
// Sessions
// ---------------------------------------------------------------------------

/// The session id in a `Cookie` header: the first `;`-separated part that,
/// trimmed, starts with `SID=`, with what follows trimmed.
pub open spec fn cookie_sid_from(parts: Seq<Seq<char>>) -> Option<Seq<char>>
    decreases parts.len(),
{
    if parts.len() == 0 {
        None
    } else {
        let p = trim(parts[0], TrimSet::WhiteSpace);
        if has_prefix(p, "SID="@) {
            Some(trim(p.skip(4), TrimSet::WhiteSpace))
        } else {
            cookie_sid_from(parts.drop_first())
        }
    }
}

pub open spec fn cookie_sid_spec(header: Seq<char>) -> Option<Seq<char>> {
    cookie_sid_from(split_on(header, ';'))
}

pub fn cookie_sid(cookie_header: &str) -> (r: Option<String>)
    ensures
        opt_view(r) == cookie_sid_spec(cookie_header@),
{
    proof {
        reveal_strlit("SID=");
    }
    let parts = split_char(&chars_of(cookie_header), ';');
    let ghost ps = crate::text::views(parts@);
    assert(ps.skip(0) =~= ps);
    let pat = lit("SID=");
    assert(pat@.len() == 4);
    let mut i: usize = 0;
    while i < parts.len()
        invariant
            i <= parts@.len(),
            pat@ == "SID="@,
            pat@.len() == 4,
            ps == crate::text::views(parts@),
            ps == split_on(cookie_header@, ';'),
            cookie_sid_from(ps) == cookie_sid_from(ps.skip(i as int)),
        decreases parts.len() - i,
    {
        assert(ps.skip(i as int)[0] == parts@[i as int]@);
        assert(ps.skip(i as int).drop_first() =~= ps.skip(i + 1));
        let p = trim_chars(&parts[i], TrimSet::WhiteSpace);
        if starts_with(&p, &pat) {
            let rest = slice(&p, 4, p.len());
            assert(rest@ =~= p@.skip(4));
            return Some(string_of(&trim_chars(&rest, TrimSet::WhiteSpace)));
        }
        i = i + 1;
    }
    None
}

/// Requests to log in need no session.
pub fn qbit_path_is_open(path: &str) -> (r: bool)
    ensures
        r == has_suffix(path@, "/auth/login"@),
{
    ends_with(&chars_of(path), &lit("/auth/login"))
}

/// The credentials are the configured ones.
pub fn login_ok(username: &str, password: &str, cfg: &Config) -> (r: bool)
    ensures
        r == (username@ == cfg.qbit_username@ && password@ == cfg.qbit_password@),
{
    chars_eq(&chars_of(username), &chars_of(cfg.qbit_username.as_str())) && chars_eq(
        &chars_of(password),
        &chars_of(cfg.qbit_password.as_str()),
    )
}

/// A new session id: 16 random bytes in hexadecimal.
pub fn new_session_id() -> (r: String)
    ensures
        exists|b: Seq<u8>| b.len() == 16 && r@ == hex_spec(b),
{
    let b = random_bytes(16);
    hex_encode(&b)
}

/// The `Set-Cookie` value that opens a session.
pub fn session_cookie(sid: &str) -> (r: String)
    ensures
        r@ == "SID="@ + sid@ + "; HttpOnly; Path=/api/v2"@,
{
    string_of(&concat(&concat(&lit("SID="), &chars_of(sid)), &lit("; HttpOnly; Path=/api/v2")))
}

// ---------------------------------------------------------------------------
// Tasks as torrents
// ---------------------------------------------------------------------------

/// The qBittorrent state word for a task status.
pub open spec fn qbit_state_spec(s: TaskStatus) -> Seq<char> {
    match s {
        TaskStatus::Pending => "queuedDL"@,
        TaskStatus::Downloading => "downloading"@,
        TaskStatus::Paused => "pausedDL"@,
        TaskStatus::Completed => "uploading"@,
        TaskStatus::Failed => "error"@,
        TaskStatus::Removed => "missingFiles"@,
    }
}

pub fn qbit_state(s: TaskStatus) -> (r: &'static str)
    ensures
        r@ == qbit_state_spec(s),
{
    match s {
        TaskStatus::Pending => "queuedDL",
        TaskStatus::Downloading => "downloading",
        TaskStatus::Paused => "pausedDL",
        TaskStatus::Completed => "uploading",
        TaskStatus::Failed => "error",
        TaskStatus::Removed => "missingFiles",
    }
}

/// Whole seconds of a time in milliseconds, rounded down.
pub fn seconds_of(ms: i64) -> (r: i64)
    ensures
        r == ms as int / 1000,
{
    if ms >= 0 {
        (ms as u64 / 1000) as i64
    } else {
        let p: u64 = (-(ms + 1)) as u64;
        let q: u64 = p / 1000;
        proof {
            assert(-(q as int) - 1 == ms as int / 1000) by (nonlinear_arith)
                requires
                    p == -(ms + 1),
                    q == p / 1000,
                    ms < 0,
            ;
        }
        -(q as i64) - 1
    }
}

/// A task as a qBittorrent torrent (its fractional progress is added by
/// the caller).
#[derive(Debug, Clone)]
pub struct QbitTorrent {
    pub hash: String,
    pub name: String,
    pub size: i64,
    pub dlspeed: i64,
    pub upspeed: i64,
    pub downloaded: i64,
    pub uploaded: i64,
    pub eta: i64,
    pub state: String,
    pub category: String,
    pub tags: String,
    pub added_on: i64,
    pub completion_on: i64,
    pub save_path: String,
    pub content_path: String,
}

/// A task's info hash towards qBittorrent clients.
pub open spec fn task_hash(t: Task) -> Seq<char> {
    hex_spec(sha256_of(encode_utf8(t.id@)).take(20))
}

pub open spec fn map_task_spec(t: Task, q: QbitTorrent) -> bool {
    &&& q.hash@ == task_hash(t)
    &&& q.name@ == match t.filename {
        Some(f) => f@,
        None => t.url@,
    }
    &&& q.size == if t.total_bytes >= t.done_bytes {
        t.total_bytes
    } else {
        t.done_bytes
    }
    &&& q.dlspeed == t.speed
    &&& q.upspeed == 0
    &&& q.downloaded == t.done_bytes
    &&& q.uploaded == 0
    &&& q.eta == 8640000
    &&& q.state@ == qbit_state_spec(t.status)
    &&& q.category@ == category_or_inbox(t.category@)
    &&& q.tags@ == Seq::<char>::empty()
    &&& q.added_on == t.created_at as int / 1000
    &&& q.completion_on == match t.completed_at {
        Some(c) => c as int / 1000,
        None => 0,
    }
    &&& q.save_path@ == match t.save_path {
        Some(p) => p@,
        None => Seq::empty(),
    }
    &&& q.content_path@ == q.save_path@
}

pub fn map_task_to_qbit(task: &Task) -> (q: QbitTorrent)
    ensures
        map_task_spec(*task, q),
{
    let name = match &task.filename {
        Some(f) => f.clone(),
        None => task.url.clone(),
    };
    let save_path = match &task.save_path {
        Some(p) => p.clone(),
        None => String::new(),
    };
    QbitTorrent {
        hash: task_info_hash(task),
        name,
        size: if task.total_bytes >= task.done_bytes {
            task.total_bytes
        } else {
            task.done_bytes
        },
        dlspeed: task.speed,
        upspeed: 0,
        downloaded: task.done_bytes,
        uploaded: 0,
        eta: 8640000,
        state: qbit_state(task.status).to_string(),
        category: qbit_category(task),
        tags: String::new(),
        added_on: seconds_of(task.created_at),
        completion_on: match task.completed_at {
            Some(c) => seconds_of(c),
            None => 0,
        },
        save_path: save_path.clone(),
        content_path: save_path,
    }
}

// ---------------------------------------------------------------------------
// Hash lists
// ---------------------------------------------------------------------------

/// The non-empty pieces of a `|`-separated list, in order.
pub open spec fn nonempty_pieces(v: Seq<Seq<char>>) -> Seq<Seq<char>>
    decreases v.len(),
{
    if v.len() == 0 {
        Seq::empty()
    } else if v.last().len() == 0 {
        nonempty_pieces(v.drop_last())
    } else {
        nonempty_pieces(v.drop_last()).push(v.last())
    }
}

/// The hashes of a `|`-separated list, empty pieces left out.
pub fn hash_list(hashes: &str) -> (r: Vec<String>)
    ensures
        strings_of(r@) == nonempty_pieces(split_on(hashes@, '|')),
{
    let parts = split_char(&chars_of(hashes), '|');
    let ghost ps = crate::text::views(parts@);
    let mut out: Vec<String> = Vec::new();
    let mut i: usize = 0;
    while i < parts.len()
        invariant
            i <= parts@.len(),
            ps == crate::text::views(parts@),
            strings_of(out@) == nonempty_pieces(ps.take(i as int)),
        decreases parts.len() - i,
    {
        assert(ps.take(i + 1).drop_last() =~= ps.take(i as int));
        assert(ps[i as int] == parts@[i as int]@);
        if parts[i].len() > 0 {
            let ghost before = out@;
            out.push(string_of(&parts[i]));
            assert(strings_of(out@) =~= strings_of(before).push(ps[i as int]));
        }
        i = i + 1;
    }
    assert(ps.take(parts.len() as int) =~= ps);
    out
}

/// The hash filter of a listing request: none when no hashes are given.
pub fn hash_filter(hashes: &Option<String>) -> (r: Option<Vec<String>>)
    ensures
        match *hashes {
            None => r is None,
            Some(h) => r matches Some(v) && strings_of(v@) == nonempty_pieces(split_on(h@, '|')),
        },
{
    match hashes {
        None => None,
        Some(h) => Some(hash_list(h.as_str())),
    }
}

/// The first hash of a properties request (which may be empty).
pub fn first_hash(hashes: &Option<String>) -> (r: Option<String>)
    ensures
        opt_view(r) == match *hashes {
            Some(h) => Some(split_on(h@, '|')[0]),
            None => None,
        },
{
    match hashes {
        None => None,
        Some(h) => {
            let parts = split_char(&chars_of(h.as_str()), '|');
            assert(split_on(h@, '|').len() > 0);
            assert(crate::text::views(parts@).len() == parts@.len());
            Some(string_of(&parts[0]))
        },
    }
}

fn contains_string(v: &Vec<String>, s: &String) -> (r: bool)
    ensures
        r == strings_of(v@).contains(s@),
{
    let sc = chars_of(s.as_str());
    let mut i: usize = 0;
    while i < v.len()
        invariant
            i <= v@.len(),
            sc@ == s@,
            forall|j: int| 0 <= j < i ==> strings_of(v@)[j] != s@,
        decreases v.len() - i,
    {
        if chars_eq(&chars_of(v[i].as_str()), &sc) {
            assert(strings_of(v@)[i as int] == s@);
            return true;
        }
        i = i + 1;
    }
    false
}

/// The task is listed under a hash filter.
pub open spec fn listed(t: Task, filter: Option<Seq<Seq<char>>>) -> bool {
    match filter {
        None => true,
        Some(hs) => hs.contains(task_hash(t)),
    }
}

/// The indices of the listed tasks, in order.
pub open spec fn listed_indices(tasks: Seq<Task>, filter: Option<Seq<Seq<char>>>) -> Seq<int>
    decreases tasks.len(),
{
    if tasks.len() == 0 {
        Seq::empty()
    } else if listed(tasks.last(), filter) {
        listed_indices(tasks.drop_last(), filter).push(tasks.len() - 1)
    } else {
        listed_indices(tasks.drop_last(), filter)
    }
}

pub open spec fn filter_view(f: Option<Vec<String>>) -> Option<Seq<Seq<char>>> {
    match f {
        Some(v) => Some(strings_of(v@)),
        None => None,
    }
}

/// The tasks a listing shows: all of them, or those whose hash is in the
/// filter.
pub fn listed_tasks(tasks: &Vec<Task>, filter: &Option<Vec<String>>) -> (r: Vec<usize>)
    ensures
        r@.map_values(|i: usize| i as int) == listed_indices(tasks@, filter_view(*filter)),
{
    let mut out: Vec<usize> = Vec::new();
    let mut i: usize = 0;
    while i < tasks.len()
        invariant
            i <= tasks@.len(),
            out@.map_values(|k: usize| k as int) == listed_indices(tasks@.take(i as int), filter_view(*filter)),
        decreases tasks.len() - i,
    {
        assert(tasks@.take(i + 1).drop_last() =~= tasks@.take(i as int));
        assert(tasks@.take(i + 1).last() == tasks@[i as int]);
        let keep = match filter {
            None => true,
            Some(hs) => {
                let h = task_info_hash(&tasks[i]);
                contains_string(hs, &h)
            },
        };
        if keep {
            let ghost before = out@;
            out.push(i);
            assert(out@.map_values(|k: usize| k as int) =~= before.map_values(|k: usize| k as int).push(i as int));
        }
        i = i + 1;
    }
    assert(tasks@.take(tasks.len() as int) =~= tasks@);
    out
}

/// The first task with the given hash.
pub fn find_task_by_hash(tasks: &Vec<Task>, hash: &str) -> (r: Option<usize>)
    ensures
        match r {
            Some(i) => i < tasks@.len() && task_hash(tasks@[i as int]) == hash@ && forall|j: int|
                0 <= j < i ==> task_hash(#[trigger] tasks@[j]) != hash@,
            None => forall|j: int| 0 <= j < tasks@.len() ==> task_hash(#[trigger] tasks@[j]) != hash@,
        },
{
    let hc = chars_of(hash);
    let mut i: usize = 0;
    while i < tasks.len()
        invariant
            i <= tasks@.len(),
            hc@ == hash@,
            forall|j: int| 0 <= j < i ==> task_hash(#[trigger] tasks@[j]) != hash@,
        decreases tasks.len() - i,
    {
        let h = task_info_hash(&tasks[i]);
        if chars_eq(&chars_of(h.as_str()), &hc) {
            return Some(i);
        }
        i = i + 1;
    }
    None
}

/// The tasks a pause, resume or delete request names: for each non-empty
/// hash, in order, the first task with that hash, when there is one.
pub open spec fn named_tasks(tasks: Seq<Task>, hashes: Seq<Seq<char>>) -> Seq<int>
    decreases hashes.len(),
{
    if hashes.len() == 0 {
        Seq::empty()
    } else {
        let rest = named_tasks(tasks, hashes.drop_last());
        let h = hashes.last();
        if exists|j: int| 0 <= j < tasks.len() && task_hash(tasks[j]) == h {
            rest.push(
                choose|j: int|
                    0 <= j < tasks.len() && task_hash(tasks[j]) == h && forall|k: int|
                        0 <= k < j ==> task_hash(#[trigger] tasks[k]) != h,
            )
        } else {
            rest
        }
    }
}

pub fn tasks_named_by(tasks: &Vec<Task>, hashes: &str) -> (r: Vec<usize>)
    ensures
        r@.map_values(|i: usize| i as int) == named_tasks(tasks@, nonempty_pieces(split_on(hashes@, '|'))),
{
    let hs = hash_list(hashes);
    let ghost hv = strings_of(hs@);
    let mut out: Vec<usize> = Vec::new();
    let mut i: usize = 0;
    while i < hs.len()
        invariant
            i <= hs@.len(),
            hv == strings_of(hs@),
            out@.map_values(|k: usize| k as int) == named_tasks(tasks@, hv.take(i as int)),
        decreases hs.len() - i,
    {
        assert(hv.take(i + 1).drop_last() =~= hv.take(i as int));
        assert(hv.take(i + 1).last() == hs@[i as int]@);
        let ghost h = hs@[i as int]@;
        match find_task_by_hash(tasks, hs[i].as_str()) {
            Some(j) => {
                proof {
                    let c = choose|jj: int|
                        0 <= jj < tasks@.len() && task_hash(tasks@[jj]) == h && forall|k: int|
                            0 <= k < jj ==> task_hash(#[trigger] tasks@[k]) != h;
                    assert(0 <= j < tasks@.len() && task_hash(tasks@[j as int]) == h);
                    assert(c == j as int) by {
                        if c < j {
                            assert(task_hash(tasks@[c]) != h);
                        }
                        if j < c {
                            assert(task_hash(tasks@[j as int]) != h);
                        }
                    }
                }
                let ghost before = out@;
                out.push(j);
                assert(out@.map_values(|k: usize| k as int) =~= before.map_values(|k: usize| k as int).push(j as int));
            },
            None => {},
        }
        i = i + 1;
    }
    assert(hv.take(hs.len() as int) =~= hv);
    out
}

// ---------------------------------------------------------------------------
// Adding torrents
// ---------------------------------------------------------------------------

/// The URLs of an add request: its non-blank lines, trimmed.
pub open spec fn url_lines(v: Seq<Seq<char>>) -> Seq<Seq<char>>
    decreases v.len(),
{
    if v.len() == 0 {
        Seq::empty()
    } else if trim(v.last(), TrimSet::WhiteSpace).len() == 0 {
        url_lines(v.drop_last())
    } else {
        url_lines(v.drop_last()).push(trim(v.last(), TrimSet::WhiteSpace))
    }
}

/// The download requests of an add request: one per URL line, in the
/// given category, from `"qbit"`; none without a `urls` field.
pub fn torrent_add_inputs(urls: &Option<String>, category: &Option<String>) -> (r: Option<
    Vec<AddTaskInput>,
>)
    ensures
        urls is None <==> r is None,
        match (*urls, r) {
            (Some(u), Some(v)) => {
                let lines = url_lines(split_on(u@, '\n'));
                &&& v@.len() == lines.len()
                &&& forall|i: int|
                    0 <= i < v@.len() ==> {
                        let t = #[trigger] v@[i];
                        &&& t.url@ == lines[i]
                        &&& t.category@ == match *category {
                            Some(c) => c@,
                            None => Seq::empty(),
                        }
                        &&& t.filename is None && t.referer is None && t.cookies is None
                        &&& !t.force_ytdlp
                        &&& t.quality is None
                        &&& opt_view(t.source) == Some("qbit"@)
                    }
            },
            _ => true,
        },
{
    let u = match urls {
        Some(u) => u,
        None => {
            return None;
        },
    };
    let cat: Vec<char> = match category {
        Some(c) => chars_of(c.as_str()),
        None => Vec::new(),
    };
    let parts = split_char(&chars_of(u.as_str()), '\n');
    let ghost ps = crate::text::views(parts@);
    let ghost want_cat = match category {
        Some(c) => c@,
        None => Seq::<char>::empty(),
    };
    let mut out: Vec<AddTaskInput> = Vec::new();
    let mut i: usize = 0;
    while i < parts.len()
        invariant
            i <= parts@.len(),
            ps == crate::text::views(parts@),
            cat@ == want_cat,
            out@.len() == url_lines(ps.take(i as int)).len(),
            forall|k: int|
                0 <= k < out@.len() ==> {
                    let t = #[trigger] out@[k];
                    &&& t.url@ == url_lines(ps.take(i as int))[k]
                    &&& t.category@ == want_cat
                    &&& t.filename is None && t.referer is None && t.cookies is None
                    &&& !t.force_ytdlp
                    &&& t.quality is None
                    &&& opt_view(t.source) == Some("qbit"@)
                },
        decreases parts.len() - i,
    {
        assert(ps.take(i + 1).drop_last() =~= ps.take(i as int));
        assert(ps[i as int] == parts@[i as int]@);
        let t = trim_chars(&parts[i], TrimSet::WhiteSpace);
        if t.len() > 0 {
            out.push(
                AddTaskInput {
                    url: string_of(&t),
                    category: string_of(&cat),
                    filename: None,
                    referer: None,
                    cookies: None,
                    force_ytdlp: false,
                    quality: None,
                    source: Some("qbit".to_string()),
                },
            );
        }
        i = i + 1;
    }
    assert(ps.take(parts.len() as int) =~= ps);
    Some(out)
}

/// The `paused` field of an add request: `true` or `1`.
pub fn paused_flag(paused: &Option<String>) -> (r: bool)
    ensures
        r == match *paused {
            Some(p) => p@ == "true"@ || p@ == "1"@,
            None => false,
        },
{
    match paused {
        Some(p) => {
            let c = chars_of(p.as_str());
            chars_eq(&c, &lit("true")) || chars_eq(&c, &lit("1"))
        },
        None => false,
    }
}

// ---------------------------------------------------------------------------
// Categories and transfer totals
// ---------------------------------------------------------------------------

/// Adds or replaces the save path of a category in a list of categories.
pub open spec fn upsert(v: Seq<(Seq<char>, Option<Seq<char>>)>, k: Seq<char>, p: Option<Seq<char>>) -> Seq<
    (Seq<char>, Option<Seq<char>>),
> {
    if exists|i: int| 0 <= i < v.len() && v[i].0 == k {
        let i = choose|i: int| 0 <= i < v.len() && v[i].0 == k;
        v.update(i, (k, p))
    } else {
        v.push((k, p))
    }
}

/// The categories of the tasks, each with the save path of the last task
/// filed under it.
pub open spec fn categories_spec(tasks: Seq<Task>) -> Seq<(Seq<char>, Option<Seq<char>>)>
    decreases tasks.len(),
{
    if tasks.len() == 0 {
        Seq::empty()
    } else {
        upsert(
            categories_spec(tasks.drop_last()),
            category_or_inbox(tasks.last().category@),
            opt_view(tasks.last().save_path),
        )
    }
}

/// No category occurs twice.
pub open spec fn distinct_keys(v: Seq<(Seq<char>, Option<Seq<char>>)>) -> bool {
    forall|i: int, j: int| 0 <= i < v.len() && 0 <= j < v.len() && i != j ==> v[i].0 != v[j].0
}

pub proof fn lemma_categories_distinct(tasks: Seq<Task>)
    ensures
        distinct_keys(categories_spec(tasks)),
    decreases tasks.len(),
{
    if tasks.len() > 0 {
        lemma_categories_distinct(tasks.drop_last());
    }
}

pub open spec fn cats_view(v: Seq<(String, Option<String>)>) -> Seq<(Seq<char>, Option<Seq<char>>)> {
    v.map_values(|p: (String, Option<String>)| (p.0@, opt_view(p.1)))
}

pub fn categories(tasks: &Vec<Task>) -> (r: Vec<(String, Option<String>)>)
    ensures
        cats_view(r@) == categories_spec(tasks@),
{
    let mut out: Vec<(String, Option<String>)> = Vec::new();
    let mut i: usize = 0;
    while i < tasks.len()
        invariant
            i <= tasks@.len(),
            cats_view(out@) == categories_spec(tasks@.take(i as int)),
        decreases tasks.len() - i,
    {
        assert(tasks@.take(i + 1).drop_last() =~= tasks@.take(i as int));
        assert(tasks@.take(i + 1).last() == tasks@[i as int]);
        proof {
            lemma_categories_distinct(tasks@.take(i as int));
        }
        let cat = qbit_category(&tasks[i]);
        let sp = clone_opt(&tasks[i].save_path);
        let ghost cv = cats_view(out@);
        let cc = chars_of(cat.as_str());
        let mut j: usize = 0;
        let mut found: Option<usize> = None;
        while j < out.len()
            invariant
                j <= out@.len(),
                cv == cats_view(out@),
                cc@ == cat@,
                found is None ==> forall|m: int| 0 <= m < j ==> cv[m].0 != cat@,
                found matches Some(f) ==> f < out@.len() && cv[f as int].0 == cat@,
            decreases out.len() - j,
        {
            if found.is_none() {
                assert(cv[j as int] == (out@[j as int].0@, opt_view(out@[j as int].1)));
                if chars_eq(&chars_of(out[j].0.as_str()), &cc) {
                    found = Some(j);
                }
            }
            j = j + 1;
        }
        let ghost spv = opt_view(sp);
        match found {
            Some(f) => {
                proof {
                    let c = choose|m: int| 0 <= m < cv.len() && cv[m].0 == cat@;
                    assert(c == f as int);
                }
                let mut tmp: Vec<(String, Option<String>)> = Vec::new();
                std::mem::swap(&mut tmp, &mut out);
                tmp.set(f, (cat, sp));
                out = tmp;
                assert(cats_view(out@) =~= cv.update(f as int, (cc@, spv)));
            },
            None => {
                out.push((cat, sp));
                assert(cats_view(out@) =~= cv.push((cc@, spv)));
            },
        }
        i = i + 1;
    }
    assert(tasks@.take(tasks.len() as int) =~= tasks@);
    out
}

/// The download speed summed over downloading tasks.
pub open spec fn dl_speed_sum(tasks: Seq<Task>) -> int
    decreases tasks.len(),
{
    if tasks.len() == 0 {
        0
    } else {
        dl_speed_sum(tasks.drop_last()) + if tasks.last().status == TaskStatus::Downloading {
            tasks.last().speed as int
        } else {
            0
        }
    }
}

/// The downloaded bytes summed over all tasks.
pub open spec fn done_sum(tasks: Seq<Task>) -> int
    decreases tasks.len(),
{
    if tasks.len() == 0 {
        0
    } else {
        done_sum(tasks.drop_last()) + tasks.last().done_bytes
    }
}

/// Every partial sum fits in an `i64`.
pub open spec fn sums_fit(tasks: Seq<Task>) -> bool {
    forall|i: int|
        0 <= i <= tasks.len() ==> i64::MIN <= #[trigger] dl_speed_sum(tasks.take(i)) <= i64::MAX
            && i64::MIN <= done_sum(tasks.take(i)) <= i64::MAX
}

/// The transfer totals: download speed of the downloading tasks, and bytes
/// downloaded by all.
pub fn transfer_totals(tasks: &Vec<Task>) -> (r: (i64, i64))
    requires
        sums_fit(tasks@),
    ensures
        r.0 == dl_speed_sum(tasks@),
        r.1 == done_sum(tasks@),
{
    let mut speed: i64 = 0;
    let mut done: i64 = 0;
    let mut i: usize = 0;
    while i < tasks.len()
        invariant
            i <= tasks@.len(),
            sums_fit(tasks@),
            speed == dl_speed_sum(tasks@.take(i as int)),
            done == done_sum(tasks@.take(i as int)),
        decreases tasks.len() - i,
    {
        assert(tasks@.take(i + 1).drop_last() =~= tasks@.take(i as int));
        assert(tasks@.take(i + 1).last() == tasks@[i as int]);
        assert(i64::MIN <= dl_speed_sum(tasks@.take(i + 1)) <= i64::MAX);
        if tasks[i].status == TaskStatus::Downloading {
            speed = speed + tasks[i].speed;
        }
        done = done + tasks[i].done_bytes;
        i = i + 1;
    }
    assert(tasks@.take(tasks.len() as int) =~= tasks@);
    (speed, done)
}

/// The transfer totals, when every partial sum fits in an `i64` (else
/// none: the sums would overflow).
pub fn checked_transfer_totals(tasks: &Vec<Task>) -> (r: Option<(i64, i64)>)
    ensures
        r is Some <==> sums_fit(tasks@),
        r matches Some(t) ==> t.0 == dl_speed_sum(tasks@) && t.1 == done_sum(tasks@),
{
    let mut speed: i64 = 0;
    let mut done: i64 = 0;
    let mut i: usize = 0;
    assert(tasks@.take(0) =~= Seq::<Task>::empty());
    while i < tasks.len()
        invariant
            i <= tasks@.len(),
            speed == dl_speed_sum(tasks@.take(i as int)),
            done == done_sum(tasks@.take(i as int)),
            forall|k: int|
                0 <= k <= i ==> i64::MIN <= #[trigger] dl_speed_sum(tasks@.take(k)) <= i64::MAX
                    && i64::MIN <= done_sum(tasks@.take(k)) <= i64::MAX,
        decreases tasks.len() - i,
    {
        assert(tasks@.take(i + 1).drop_last() =~= tasks@.take(i as int));
        assert(tasks@.take(i + 1).last() == tasks@[i as int]);
        if tasks[i].status == TaskStatus::Downloading {
            match speed.checked_add(tasks[i].speed) {
                Some(v) => {
                    speed = v;
                },
                None => {
                    assert(!(i64::MIN <= dl_speed_sum(tasks@.take(i + 1)) <= i64::MAX));
                    return None;
                },
            }
        }
        match done.checked_add(tasks[i].done_bytes) {
            Some(v) => {
                done = v;
            },
            None => {
                assert(!(i64::MIN <= done_sum(tasks@.take(i + 1)) <= i64::MAX));
                assert(!sums_fit(tasks@)) by {
                    let k: int = i + 1;
                    if sums_fit(tasks@) {
                        assert(0 <= k <= tasks@.len());
                        assert(i64::MIN <= dl_speed_sum(tasks@.take(k)) <= i64::MAX && i64::MIN
                            <= done_sum(tasks@.take(k)) <= i64::MAX);
                    }
                }
                return None;
            },
        }
        i = i + 1;
    }
    assert(tasks@.take(tasks.len() as int) =~= tasks@);
    Some((speed, done))
}

} // verus!
