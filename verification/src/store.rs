//! Download tasks and RSS feeds as the rest of the library sees them, and
//! the names under which their kinds and states are stored.
use vstd::prelude::*;
use crate::text::{chars_eq, chars_of, lit, string_of};

verus! {

/// Which back end downloads a task.
#[derive(Debug, Clone, Copy, PartialEq, Eq, Structural)]
pub enum TaskType {
    Aria2,
    Ytdlp,
}

/// Where a task stands.
#[derive(Debug, Clone, Copy, PartialEq, Eq, Structural)]
pub enum TaskStatus {
    Pending,
    Downloading,
    Paused,
    Completed,
    Failed,
    Removed,
}

pub open spec fn status_name(s: TaskStatus) -> Seq<char> {
    match s {
        TaskStatus::Pending => "pending"@,
        TaskStatus::Downloading => "downloading"@,
        TaskStatus::Paused => "paused"@,
        TaskStatus::Completed => "completed"@,
        TaskStatus::Failed => "failed"@,
        TaskStatus::Removed => "removed"@,
    }
}

/// The status a stored name stands for; unknown names read as `Pending`.
pub open spec fn status_from_name(s: Seq<char>) -> TaskStatus {
    if s == "downloading"@ {
        TaskStatus::Downloading
    } else if s == "paused"@ {
        TaskStatus::Paused
    } else if s == "completed"@ {
        TaskStatus::Completed
    } else if s == "failed"@ {
        TaskStatus::Failed
    } else if s == "removed"@ {
        TaskStatus::Removed
    } else {
        TaskStatus::Pending
    }
}

pub open spec fn task_type_name(t: TaskType) -> Seq<char> {
    match t {
        TaskType::Aria2 => "aria2"@,
        TaskType::Ytdlp => "ytdlp"@,
    }
}

/// The type a stored name stands for; anything but `"ytdlp"` reads as `Aria2`.
pub open spec fn type_from_name(s: Seq<char>) -> TaskType {
    if s == "ytdlp"@ {
        TaskType::Ytdlp
    } else {
        TaskType::Aria2
    }
}

/// `v` equals the string literal `l`.
fn is_lit(v: &Vec<char>, l: &str) -> (r: bool)
    ensures
        r == (v@ == l@),
{
    let w = lit(l);
    chars_eq(v, &w)
}

impl TaskStatus {
    /// The name under which the status is stored.
    pub fn as_str(self) -> (r: &'static str)
        ensures
            r@ == status_name(self),
    {
        match self {
            TaskStatus::Pending => "pending",
            TaskStatus::Downloading => "downloading",
            TaskStatus::Paused => "paused",
            TaskStatus::Completed => "completed",
            TaskStatus::Failed => "failed",
            TaskStatus::Removed => "removed",
        }
    }

    /// The status a stored name stands for (`Pending` for unknown names).
    pub fn parse(s: &str) -> (r: TaskStatus)
        ensures
            r == status_from_name(s@),
    {
        let v = chars_of(s);
        if is_lit(&v, "downloading") {
            TaskStatus::Downloading
        } else if is_lit(&v, "paused") {
            TaskStatus::Paused
        } else if is_lit(&v, "completed") {
            TaskStatus::Completed
        } else if is_lit(&v, "failed") {
            TaskStatus::Failed
        } else if is_lit(&v, "removed") {
            TaskStatus::Removed
        } else {
            TaskStatus::Pending
        }
    }
}

impl TaskType {
    /// The name under which the type is stored.
    pub fn as_str(self) -> (r: &'static str)
        ensures
            r@ == task_type_name(self),
    {
        match self {
            TaskType::Aria2 => "aria2",
            TaskType::Ytdlp => "ytdlp",
        }
    }

    /// The type a stored name stands for (`Aria2` unless it is `"ytdlp"`).
    pub fn parse(s: &str) -> (r: TaskType)
        ensures
            r == type_from_name(s@),
    {
        let v = chars_of(s);
        if is_lit(&v, "ytdlp") {
            TaskType::Ytdlp
        } else {
            TaskType::Aria2
        }
    }
}

/// Reading back the stored name of a status gives the status.
pub proof fn law_status_name_round_trip(s: TaskStatus)
    ensures
        status_from_name(status_name(s)) == s,
{
    reveal_strlit("pending");
    reveal_strlit("downloading");
    reveal_strlit("paused");
    reveal_strlit("completed");
    reveal_strlit("failed");
    reveal_strlit("removed");
    assert("pending"@.len() == 7 && "pending"@[0] == 'p');
    assert("downloading"@.len() == 11 && "downloading"@[0] == 'd');
    assert("paused"@.len() == 6 && "paused"@[0] == 'p');
    assert("completed"@.len() == 9 && "completed"@[0] == 'c');
    assert("failed"@.len() == 6 && "failed"@[0] == 'f');
    assert("removed"@.len() == 7 && "removed"@[0] == 'r');
}

/// Reading back the stored name of a task type gives the type.
pub proof fn law_type_name_round_trip(t: TaskType)
    ensures
        type_from_name(task_type_name(t)) == t,
{
    reveal_strlit("aria2");
    reveal_strlit("ytdlp");
    assert("aria2"@[0] == 'a' && "ytdlp"@[0] == 'y');
}

/// A download task.  Times are milliseconds since the Unix epoch; the
/// fractional progress of a task is kept by the caller.
#[derive(Debug, Clone)]
pub struct Task {
    pub id: String,
    pub url: String,
    pub task_type: TaskType,
    pub status: TaskStatus,
    pub backend_gid: Option<String>,
    pub category: String,
    pub filename: Option<String>,
    pub save_path: Option<String>,
    pub done_bytes: i64,
    pub total_bytes: i64,
    pub speed: i64,
    pub upload_speed: i64,
    pub connections: i32,
    pub num_seeders: i32,
    pub uploaded_bytes: i64,
    pub seeding: bool,
    pub error: Option<String>,
    pub referer: Option<String>,
    pub quality: Option<String>,
    pub source: Option<String>,
    pub created_at: i64,
    pub updated_at: i64,
    pub completed_at: Option<i64>,
}

/// A request to download something.
#[derive(Debug, Clone)]
pub struct AddTaskInput {
    pub url: String,
    pub category: String,
    pub filename: Option<String>,
    pub referer: Option<String>,
    pub cookies: Option<String>,
    pub force_ytdlp: bool,
    pub quality: Option<String>,
    pub source: Option<String>,
}

/// An RSS feed that is polled for new downloads.
#[derive(Debug, Clone)]
pub struct RssFeed {
    pub id: String,
    pub url: String,
    pub title: Option<String>,
    pub filter_regex: Option<String>,
    pub category: String,
    pub enabled: bool,
    pub poll_interval_secs: i64,
    pub created_at: i64,
}

pub open spec fn opt_view(o: Option<String>) -> Option<Seq<char>> {
    match o {
        Some(s) => Some(s@),
        None => None,
    }
}

pub fn clone_opt(o: &Option<String>) -> (r: Option<String>)
    ensures
        opt_view(r) == opt_view(*o),
{
    match o {
        Some(s) => Some(s.clone()),
        None => None,
    }
}

/// The category a new task or feed is filed under: `"inbox"` when none is
/// given.
pub open spec fn category_or_inbox(c: Seq<char>) -> Seq<char> {
    if c.len() == 0 {
        "inbox"@
    } else {
        c
    }
}

fn category_or_inbox_exec(c: &String) -> (r: String)
    ensures
        r@ == category_or_inbox(c@),
{
    if c.as_str().is_empty() {
        "inbox".to_string()
    } else {
        c.clone()
    }
}

/// A new task record for a download request, pending in the given
/// directory, with every counter at zero.
pub open spec fn new_task_spec(
    t: Task,
    input: AddTaskInput,
    task_type: TaskType,
    save_path: Seq<char>,
    now: i64,
) -> bool {
    &&& id_shaped(t.id@)
    &&& t.url@ == input.url@
    &&& t.task_type == task_type
    &&& t.status == TaskStatus::Pending
    &&& t.backend_gid.is_none()
    &&& t.category@ == category_or_inbox(input.category@)
    &&& t.filename.is_none()
    &&& opt_view(t.save_path) == Some(save_path)
    &&& t.done_bytes == 0 && t.total_bytes == 0 && t.speed == 0
    &&& t.upload_speed == 0 && t.connections == 0 && t.num_seeders == 0 && t.uploaded_bytes == 0
    &&& !t.seeding
    &&& t.error.is_none()
    &&& opt_view(t.referer) == opt_view(input.referer)
    &&& opt_view(t.quality) == opt_view(input.quality)
    &&& opt_view(t.source) == opt_view(input.source)
    &&& t.created_at == now && t.updated_at == now
    &&& t.completed_at.is_none()
}

/// The shape of an identifier: a hyphenated UUID, 36 characters with
/// hyphens at 8, 13, 18 and 23.
pub open spec fn id_shaped(id: Seq<char>) -> bool {
    id.len() == 36 && id[8] == '-' && id[13] == '-' && id[18] == '-' && id[23] == '-'
}

/// A fresh random task or feed identifier (`Uuid::new_v4().to_string()`,
/// the hyphenated lower-case form). Only its shape is stated: 36
/// characters with hyphens at 8, 13, 18 and 23; the value is random.
#[verifier::external_body]
fn fresh_id() -> (r: String)
    ensures
        id_shaped(r@),
{
    uuid::Uuid::new_v4().to_string()
}

/// The record of a newly requested download, with a fresh identifier.
pub fn new_task(input: &AddTaskInput, task_type: TaskType, save_path: &str, now: i64) -> (t: Task)
    ensures
        new_task_spec(t, *input, task_type, save_path@, now),
{
    let id = fresh_id();
    let sp = string_of(&chars_of(save_path));
    Task {
        id,
        url: input.url.clone(),
        task_type,
        status: TaskStatus::Pending,
        backend_gid: None,
        category: category_or_inbox_exec(&input.category),
        filename: None,
        save_path: Some(sp),
        done_bytes: 0,
        total_bytes: 0,
        speed: 0,
        upload_speed: 0,
        connections: 0,
        num_seeders: 0,
        uploaded_bytes: 0,
        seeding: false,
        error: None,
        referer: clone_opt(&input.referer),
        quality: clone_opt(&input.quality),
        source: clone_opt(&input.source),
        created_at: now,
        updated_at: now,
        completed_at: None,
    }
}

/// The record of a newly added RSS feed, with a fresh identifier.
pub fn new_rss_feed(
    url: &str,
    title: Option<&str>,
    filter_regex: Option<&str>,
    category: &str,
    enabled: bool,
    poll_interval_secs: i64,
    now: i64,
) -> (f: RssFeed)
    ensures
        f.url@ == url@,
        opt_view(f.title) == (match title {
            Some(t) => Some(t@),
            None => None,
        }),
        opt_view(f.filter_regex) == (match filter_regex {
            Some(t) => Some(t@),
            None => None,
        }),
        f.category@ == category_or_inbox(category@),
        f.enabled == enabled,
        f.poll_interval_secs == poll_interval_secs,
        f.created_at == now,
        id_shaped(f.id@),
{
    let cat = string_of(&chars_of(category));
    RssFeed {
        id: fresh_id(),
        url: string_of(&chars_of(url)),
        title: match title {
            Some(t) => Some(string_of(&chars_of(t))),
            None => None,
        },
        filter_regex: match filter_regex {
            Some(t) => Some(string_of(&chars_of(t))),
            None => None,
        },
        category: category_or_inbox_exec(&cat),
        enabled,
        poll_interval_secs,
        created_at: now,
    }
}

} // verus!
