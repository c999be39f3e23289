//! The HTTP API's decisions: request rate limiting, and turning request
//! bodies into tasks and feeds.
use vstd::prelude::*;
use crate::store::{opt_view, clone_opt, AddTaskInput, RssFeed};
use crate::text::{chars_eq, chars_of, string_of, trim, trimmed, TrimSet};

verus! {

// ---------------------------------------------------------------------------
// Rate limiting
// ---------------------------------------------------------------------------

#[verifier::external_type_specification]
#[verifier::external_body]
pub struct ExInstant(std::time::Instant);

/// `Instant::now`: the monotonic clock.  Nothing is stated of the value.
#[verifier::external_body]
fn instant_now() -> (r: std::time::Instant) {
    std::time::Instant::now()
}

/// `Instant::elapsed` of `base`, in nanoseconds.  Nothing is stated of the
/// value: it reads the clock.
#[verifier::external_body]
fn nanos_since(base: &std::time::Instant) -> (r: u64) {
    base.elapsed().as_nanos() as u64
}

/// The length of the rate-limit window, in nanoseconds (one minute).
pub const WINDOW_NANOS: u64 = 60_000_000_000;

/// How long ago `t` was, at `now`; a time after `now` counts as now.
pub open spec fn age(now: u64, t: u64) -> int {
    if now >= t {
        now - t
    } else {
        0
    }
}

/// The hits that are still inside the window at `now`, in order.
pub open spec fn kept_hits(hits: Seq<u64>, now: u64) -> Seq<u64>
    decreases hits.len(),
{
    if hits.len() == 0 {
        Seq::empty()
    } else {
        let k = kept_hits(hits.drop_last(), now);
        if age(now, hits.last()) < WINDOW_NANOS {
            k.push(hits.last())
        } else {
            k
        }
    }
}

pub proof fn lemma_kept_hits(hits: Seq<u64>, now: u64)
    ensures
        kept_hits(hits, now).len() <= hits.len(),
        forall|i: int|
            0 <= i < kept_hits(hits, now).len() ==> age(now, #[trigger] kept_hits(hits, now)[i])
                < WINDOW_NANOS,
    decreases hits.len(),
{
    if hits.len() > 0 {
        lemma_kept_hits(hits.drop_last(), now);
    }
}

/// What a check does to a key's hits: drop those outside the window; refuse
/// when `limit` are left, else record this one and accept.
pub open spec fn check_spec(hits: Seq<u64>, now: u64, limit: u32) -> (bool, Seq<u64>) {
    let kept = kept_hits(hits, now);
    if kept.len() >= limit {
        (false, kept)
    } else {
        (true, kept.push(now))
    }
}

/// A check accepts a request only while fewer than `limit` requests of the
/// key were accepted in the last minute, and after it accepts, the key's
/// recorded hits, all inside the window, are at most `limit`.
pub proof fn law_rate_limit(hits: Seq<u64>, now: u64, limit: u32)
    ensures
        check_spec(hits, now, limit).0 <==> kept_hits(hits, now).len() < limit,
        check_spec(hits, now, limit).0 ==> check_spec(hits, now, limit).1.len() <= limit,
        forall|i: int|
            0 <= i < check_spec(hits, now, limit).1.len() ==> age(
                now,
                #[trigger] check_spec(hits, now, limit).1[i],
            ) < WINDOW_NANOS,
{
    lemma_kept_hits(hits, now);
    let kept = kept_hits(hits, now);
    if kept.len() < limit {
        assert forall|i: int| 0 <= i < kept.push(now).len() implies age(
            now,
            #[trigger] kept.push(now)[i],
        ) < WINDOW_NANOS by {
            if i < kept.len() {
                assert(kept.push(now)[i] == kept[i]);
            }
        }
    }
}

/// The hits recorded for `key`: those of the last entry with that key.
pub open spec fn lookup(v: Seq<(Seq<char>, Seq<u64>)>, key: Seq<char>) -> Seq<u64>
    decreases v.len(),
{
    if v.len() == 0 {
        Seq::empty()
    } else if v.last().0 == key {
        v.last().1
    } else {
        lookup(v.drop_last(), key)
    }
}

proof fn lemma_lookup_update(v: Seq<(Seq<char>, Seq<u64>)>, i: int, key: Seq<char>, hits: Seq<u64>)
    requires
        0 <= i < v.len(),
        v[i].0 == key,
        forall|j: int| i < j < v.len() ==> v[j].0 != key,
    ensures
        lookup(v.update(i, (key, hits)), key) == hits,
        forall|k: Seq<char>|
            k != key ==> #[trigger] lookup(v.update(i, (key, hits)), k) == lookup(v, k),
    decreases v.len(),
{
    let w = v.update(i, (key, hits));
    if i == v.len() - 1 {
        assert(w.drop_last() =~= v.drop_last());
        assert forall|k: Seq<char>| k != key implies #[trigger] lookup(w, k) == lookup(v, k) by {
            assert(w.last().0 == key);
            assert(v.last().0 == key);
        }
    } else {
        assert(w.drop_last() =~= v.drop_last().update(i, (key, hits)));
        lemma_lookup_update(v.drop_last(), i, key, hits);
        assert(w.last() == v.last());
        assert forall|k: Seq<char>| k != key implies #[trigger] lookup(w, k) == lookup(v, k) by {
            if v.last().0 != k {
                assert(lookup(w.drop_last(), k) == lookup(v.drop_last(), k));
            }
        }
    }
}

pub open spec fn entries_view(v: Seq<(String, Vec<u64>)>) -> Seq<(Seq<char>, Seq<u64>)> {
    v.map_values(|p: (String, Vec<u64>)| (p.0@, p.1@))
}

/// Limits how many requests each client key may make per minute.
pub struct RateLimiter {
    limit: u32,
    hits: Vec<(String, Vec<u64>)>,
    base: std::time::Instant,
}

impl RateLimiter {
    #[verifier::type_invariant]
    spec fn inv(self) -> bool {
        forall|i: int| 0 <= i < self.hits@.len() ==> #[trigger] self.hits@[i].1@.len() <= u32::MAX
    }

    /// The requests allowed per key and minute.
    pub closed spec fn limit_spec(&self) -> u32 {
        self.limit
    }

    /// The times, in nanoseconds of the limiter's clock, of the requests
    /// recorded for `key`.
    pub closed spec fn hits_of(&self, key: Seq<char>) -> Seq<u64> {
        lookup(entries_view(self.hits@), key)
    }

    pub fn new(limit: u32) -> (r: RateLimiter)
        ensures
            r.limit_spec() == limit,
            forall|k: Seq<char>| #[trigger] r.hits_of(k) == Seq::<u64>::empty(),
    {
        let r = RateLimiter { limit, hits: Vec::new(), base: instant_now() };
        assert(entries_view(r.hits@) =~= Seq::<(Seq<char>, Seq<u64>)>::empty());
        r
    }

    pub fn set_limit(&mut self, limit: u32)
        ensures
            final(self).limit_spec() == limit,
            forall|k: Seq<char>| #[trigger] final(self).hits_of(k) == old(self).hits_of(k),
    {
        proof {
            use_type_invariant(&*self);
        }
        self.limit = limit;
    }

    /// Checks a request of `key` at time `now` (nanoseconds of the
    /// limiter's clock): whether it may pass.
    pub fn check_at(&mut self, key: &str, now: u64) -> (ok: bool)
        ensures
            (ok, final(self).hits_of(key@)) == check_spec(old(self).hits_of(key@), now, old(self).limit_spec()),
            final(self).limit_spec() == old(self).limit_spec(),
            forall|k: Seq<char>| k != key@ ==> #[trigger] final(self).hits_of(k) == old(self).hits_of(k),
    {
        proof {
            use_type_invariant(&*self);
        }
        let kc = chars_of(key);
        let ghost ev = entries_view(self.hits@);
        // the last entry for the key, if any
        let mut idx: Option<usize> = None;
        let mut j: usize = self.hits.len();
        assert(ev.take(j as int) =~= ev);
        while j > 0 && idx.is_none()
            invariant
                j <= self.hits@.len(),
                ev == entries_view(self.hits@),
                kc@ == key@,
                idx is None ==> lookup(ev, key@) == lookup(ev.take(j as int), key@),
                idx is None ==> forall|m: int| j <= m < ev.len() ==> #[trigger] ev[m].0 != key@,
                idx matches Some(i) ==> i < ev.len() && lookup(ev, key@) == ev[i as int].1
                    && ev[i as int].0 == key@ && forall|m: int|
                    i < m < ev.len() ==> #[trigger] ev[m].0 != key@,
            decreases j,
        {
            let jj = j - 1;
            assert(ev[jj as int] == (self.hits@[jj as int].0@, self.hits@[jj as int].1@));
            assert(ev.take(j as int).drop_last() =~= ev.take(jj as int));
            assert(ev.take(j as int).last() == ev[jj as int]);
            if chars_eq(&chars_of(self.hits[jj].0.as_str()), &kc) {
                idx = Some(jj);
            }
            j = jj;
        }
        let old_hits: Vec<u64> = match idx {
            Some(i) => self.hits[i].1.clone(),
            None => Vec::new(),
        };
        proof {
            if idx is None {
                assert(ev.take(0) =~= Seq::<(Seq<char>, Seq<u64>)>::empty());
            }
        }
        assert(old_hits@ == lookup(ev, key@));
        // keep the hits inside the window
        let mut kept: Vec<u64> = Vec::new();
        let mut m: usize = 0;
        while m < old_hits.len()
            invariant
                m <= old_hits@.len(),
                kept@ == kept_hits(old_hits@.take(m as int), now),
            decreases old_hits.len() - m,
        {
            let t = old_hits[m];
            assert(old_hits@.take(m + 1).drop_last() =~= old_hits@.take(m as int));
            let a: u64 = if now >= t {
                now - t
            } else {
                0
            };
            if a < WINDOW_NANOS {
                kept.push(t);
            }
            m = m + 1;
        }
        assert(old_hits@.take(old_hits.len() as int) =~= old_hits@);
        proof {
            lemma_kept_hits(old_hits@, now);
            match idx {
                Some(i) => {
                    assert(self.hits@[i as int].1@.len() <= u32::MAX);
                },
                None => {},
            }
        }
        let ok = kept.len() < self.limit as usize;
        if ok {
            kept.push(now);
        }
        let ghost newh = kept@;
        let kstr = string_of(&kc);
        let mut hits: Vec<(String, Vec<u64>)> = Vec::new();
        std::mem::swap(&mut hits, &mut self.hits);
        match idx {
            Some(i) => {
                hits.set(i, (kstr, kept));
                proof {
                    assert(entries_view(hits@) =~= ev.update(i as int, (key@, newh)));
                    lemma_lookup_update(ev, i as int, key@, newh);
                }
            },
            None => {
                hits.push((kstr, kept));
                proof {
                    assert(entries_view(hits@) =~= ev.push((key@, newh)));
                    assert(entries_view(hits@).drop_last() =~= ev);
                }
            },
        }
        self.hits = hits;
        ok
    }

    /// Checks a request of `key` now: whether it may pass.
    pub fn check(&mut self, key: &str) -> (ok: bool)
        ensures
            final(self).limit_spec() == old(self).limit_spec(),
            exists|now: u64|
                (ok, final(self).hits_of(key@)) == check_spec(
                    old(self).hits_of(key@),
                    now,
                    old(self).limit_spec(),
                ),
            forall|k: Seq<char>| k != key@ ==> #[trigger] final(self).hits_of(k) == old(self).hits_of(k),
    {
        let now = nanos_since(&self.base);
        self.check_at(key, now)
    }
}

// ---------------------------------------------------------------------------
// Request bodies
// ---------------------------------------------------------------------------

/// The body of a request to add a download.
#[derive(Debug, Clone)]
pub struct CreateTaskBody {
    pub url: String,
    pub category: Option<String>,
    pub filename: Option<String>,
    pub referer: Option<String>,
    pub cookies: Option<String>,
    pub force_ytdlp: Option<bool>,
    pub quality: Option<String>,
    pub source: Option<String>,
}

/// The download request for a body: none when the URL is blank; else the
/// trimmed URL, no category when none is given, yt-dlp not forced unless
/// asked for, and `"api"` as the source unless one is given.
pub open spec fn task_input_spec(b: CreateTaskBody, i: AddTaskInput) -> bool {
    &&& i.url@ == trim(b.url@, TrimSet::WhiteSpace)
    &&& i.category@ == match b.category {
        Some(c) => c@,
        None => Seq::empty(),
    }
    &&& opt_view(i.filename) == opt_view(b.filename)
    &&& opt_view(i.referer) == opt_view(b.referer)
    &&& opt_view(i.cookies) == opt_view(b.cookies)
    &&& i.force_ytdlp == match b.force_ytdlp {
        Some(f) => f,
        None => false,
    }
    &&& opt_view(i.quality) == opt_view(b.quality)
    &&& opt_view(i.source) == match b.source {
        Some(s) => Some(s@),
        None => Some("api"@),
    }
}

pub fn task_input(body: &CreateTaskBody) -> (r: Option<AddTaskInput>)
    ensures
        r is None <==> trim(body.url@, TrimSet::WhiteSpace).len() == 0,
        r matches Some(i) ==> task_input_spec(*body, i),
{
    let url = trimmed(body.url.as_str());
    if url.len() == 0 {
        return None;
    }
    Some(
        AddTaskInput {
            url: string_of(&url),
            category: match &body.category {
                Some(c) => c.clone(),
                None => String::new(),
            },
            filename: clone_opt(&body.filename),
            referer: clone_opt(&body.referer),
            cookies: clone_opt(&body.cookies),
            force_ytdlp: match body.force_ytdlp {
                Some(f) => f,
                None => false,
            },
            quality: clone_opt(&body.quality),
            source: match &body.source {
                Some(s) => Some(s.clone()),
                None => Some("api".to_string()),
            },
        },
    )
}

/// The body of a request to add an RSS feed.
#[derive(Debug, Clone)]
pub struct CreateRssFeedBody {
    pub url: String,
    pub title: Option<String>,
    pub filter_regex: Option<String>,
    pub category: Option<String>,
    pub enabled: Option<bool>,
    pub poll_interval_secs: Option<i64>,
}

/// A feed to be added, with the defaults filled in.
#[derive(Debug, Clone)]
pub struct NewFeed {
    pub url: String,
    pub title: Option<String>,
    pub filter_regex: Option<String>,
    pub category: String,
    pub enabled: bool,
    pub poll_interval_secs: i64,
}

/// The feed for a body: none when the URL is blank; else the trimmed URL,
/// no category when none is given, enabled unless said otherwise, and
/// polled every 300 seconds unless said otherwise.
pub fn new_feed(body: &CreateRssFeedBody) -> (r: Option<NewFeed>)
    ensures
        r is None <==> trim(body.url@, TrimSet::WhiteSpace).len() == 0,
        r matches Some(f) ==> {
            &&& f.url@ == trim(body.url@, TrimSet::WhiteSpace)
            &&& opt_view(f.title) == opt_view(body.title)
            &&& opt_view(f.filter_regex) == opt_view(body.filter_regex)
            &&& f.category@ == match body.category {
                Some(c) => c@,
                None => Seq::empty(),
            }
            &&& f.enabled == match body.enabled {
                Some(e) => e,
                None => true,
            }
            &&& f.poll_interval_secs == match body.poll_interval_secs {
                Some(p) => p,
                None => 300,
            }
        },
{
    let url = trimmed(body.url.as_str());
    if url.len() == 0 {
        return None;
    }
    Some(
        NewFeed {
            url: string_of(&url),
            title: clone_opt(&body.title),
            filter_regex: clone_opt(&body.filter_regex),
            category: match &body.category {
                Some(c) => c.clone(),
                None => String::new(),
            },
            enabled: match body.enabled {
                Some(e) => e,
                None => true,
            },
            poll_interval_secs: match body.poll_interval_secs {
                Some(p) => p,
                None => 300,
            },
        },
    )
}

/// The body of a request to change an RSS feed.
#[derive(Debug, Clone)]
pub struct UpdateRssFeedBody {
    pub url: Option<String>,
    pub title: Option<String>,
    pub filter_regex: Option<String>,
    pub category: Option<String>,
    pub enabled: Option<bool>,
    pub poll_interval_secs: Option<i64>,
}

/// Changes a feed as a request asks: each field given replaces the
/// feed's, the others stay.
pub fn apply_feed_update(feed: &mut RssFeed, body: &UpdateRssFeedBody)
    ensures
        final(feed).id@ == old(feed).id@,
        final(feed).created_at == old(feed).created_at,
        final(feed).url@ == match body.url {
            Some(v) => v@,
            None => old(feed).url@,
        },
        opt_view(final(feed).title) == match body.title {
            Some(v) => Some(v@),
            None => opt_view(old(feed).title),
        },
        opt_view(final(feed).filter_regex) == match body.filter_regex {
            Some(v) => Some(v@),
            None => opt_view(old(feed).filter_regex),
        },
        final(feed).category@ == match body.category {
            Some(v) => v@,
            None => old(feed).category@,
        },
        final(feed).enabled == match body.enabled {
            Some(v) => v,
            None => old(feed).enabled,
        },
        final(feed).poll_interval_secs == match body.poll_interval_secs {
            Some(v) => v,
            None => old(feed).poll_interval_secs,
        },
{
    if let Some(v) = &body.url {
        feed.url = v.clone();
    }
    if let Some(v) = &body.title {
        feed.title = Some(v.clone());
    }
    if let Some(v) = &body.filter_regex {
        feed.filter_regex = Some(v.clone());
    }
    if let Some(v) = &body.category {
        feed.category = v.clone();
    }
    if let Some(v) = body.enabled {
        feed.enabled = v;
    }
    if let Some(v) = body.poll_interval_secs {
        feed.poll_interval_secs = v;
    }
}

} // verus!
