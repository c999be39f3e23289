//! What the library reads from aria2's answers, and what it sends with a
//! new download.
use vstd::prelude::*;
use crate::store::{opt_view, TaskStatus};
use crate::text::{
    chars_eq, chars_of, concat, contains, contains_chars, lit, lower, parse_i64_exec,
    parse_i64_spec, string_of, to_lower, trim, trimmed, TrimSet,
};

verus! {

/// One file of an aria2 download.
#[derive(Debug, Clone)]
pub struct Aria2File {
    pub path: String,
}

/// The fields of an aria2 `tellStatus` answer that the library reads.
/// Numbers come as decimal text, as aria2 sends them.
#[derive(Debug, Clone)]
pub struct Aria2Status {
    pub _gid: String,
    pub status: String,
    pub total_length: String,
    pub completed_length: String,
    pub download_speed: String,
    pub upload_speed: String,
    pub connections: String,
    pub num_seeders: String,
    pub upload_length: String,
    pub files: Vec<Aria2File>,
    pub error_message: String,
    pub followed_by: Vec<String>,
    pub following: String,
    pub info_hash: String,
    pub seeder: String,
}

/// aria2 reports the download as seeding: its `seeder` field is `true` or
/// `1`, in any case.
pub open spec fn is_seeder_spec(seeder: Seq<char>) -> bool {
    lower(seeder) == "true"@ || lower(seeder) == "1"@
}

pub fn is_seeder(st: &Aria2Status) -> (r: bool)
    ensures
        r == is_seeder_spec(st.seeder@),
{
    let l = to_lower(&chars_of(st.seeder.as_str()));
    chars_eq(&l, &lit("true")) || chars_eq(&l, &lit("1"))
}

/// The task status for an aria2 status word (compared case-insensitively).
pub open spec fn map_status_spec(s: Seq<char>) -> TaskStatus {
    let l = lower(s);
    if l == "complete"@ {
        TaskStatus::Completed
    } else if l == "error"@ {
        TaskStatus::Failed
    } else if l == "paused"@ {
        TaskStatus::Paused
    } else {
        TaskStatus::Downloading
    }
}

pub fn map_status(s: &str) -> (r: TaskStatus)
    ensures
        r == map_status_spec(s@),
{
    let l = to_lower(&chars_of(s));
    if chars_eq(&l, &lit("complete")) {
        TaskStatus::Completed
    } else if chars_eq(&l, &lit("error")) {
        TaskStatus::Failed
    } else if chars_eq(&l, &lit("paused")) {
        TaskStatus::Paused
    } else {
        TaskStatus::Downloading
    }
}

/// A decimal field of aria2's answer as a number; text that is not an
/// `i64` counts as zero.
pub open spec fn parse_i64_or_zero(s: Seq<char>) -> int {
    match parse_i64_spec(s) {
        Some(v) => v,
        None => 0,
    }
}

pub fn parse_i64(s: &str) -> (r: i64)
    ensures
        r == parse_i64_or_zero(s@),
{
    match parse_i64_exec(&chars_of(s)) {
        Some(v) => v,
        None => 0,
    }
}

/// aria2 is fetching, or has fetched, a torrent's metadata rather than its
/// files: the first file's path holds `[METADATA]`.
pub open spec fn is_metadata_spec(st: Aria2Status) -> bool {
    st.files@.len() > 0 && contains(st.files@[0].path@, "[METADATA]"@)
}

pub fn is_metadata_status(st: &Aria2Status) -> (r: bool)
    ensures
        r == is_metadata_spec(*st),
{
    if st.files.len() == 0 {
        return false;
    }
    contains_chars(&chars_of(st.files[0].path.as_str()), &lit("[METADATA]"))
}

/// The download whose status this is follows `parent_gid` (a magnet's
/// metadata download is followed by the download of its files).
pub fn is_following(st: &Aria2Status, parent_gid: &str) -> (r: bool)
    ensures
        r == (st.following@ == parent_gid@),
{
    chars_eq(&chars_of(st.following.as_str()), &chars_of(parent_gid))
}

// ---------------------------------------------------------------------------
// Choosing the download that belongs to a magnet's info hash
// ---------------------------------------------------------------------------

/// Of a list of (gid, total length) pairs, the first one with the largest
/// total length.
pub open spec fn first_max(s: Seq<(Seq<char>, int)>) -> Option<(Seq<char>, int)>
    decreases s.len(),
{
    if s.len() == 0 {
        None
    } else {
        match first_max(s.drop_last()) {
            None => Some(s.last()),
            Some(b) => if s.last().1 > b.1 {
                Some(s.last())
            } else {
                Some(b)
            },
        }
    }
}

/// The pair `first_max` picks is in the list, no pair has a larger total,
/// and every pair before it has a smaller one: it is what a stable sort by
/// decreasing total puts first.
pub proof fn law_first_max_is_first_largest(s: Seq<(Seq<char>, int)>)
    requires
        s.len() > 0,
    ensures
        first_max(s) is Some,
        exists|k: int|
            0 <= k < s.len() && s[k] == first_max(s).unwrap() && (forall|j: int|
                0 <= j < s.len() ==> #[trigger] s[j].1 <= s[k].1) && (forall|j: int|
                0 <= j < k ==> #[trigger] s[j].1 < s[k].1),
    decreases s.len(),
{
    let p = s.drop_last();
    if p.len() == 0 {
        assert(s[0] == s.last());
    } else {
        law_first_max_is_first_largest(p);
        let k0 = choose|k: int|
            0 <= k < p.len() && p[k] == first_max(p).unwrap() && (forall|j: int|
                0 <= j < p.len() ==> #[trigger] p[j].1 <= p[k].1) && (forall|j: int|
                0 <= j < k ==> #[trigger] p[j].1 < p[k].1);
        assert(forall|j: int| 0 <= j < p.len() ==> s[j] == p[j]);
        if s.last().1 > first_max(p).unwrap().1 {
            let k = s.len() - 1;
            assert(s[k] == s.last());
            assert forall|j: int| 0 <= j < s.len() implies #[trigger] s[j].1 <= s[k].1 by {
                if j < p.len() {
                    assert(p[j].1 <= p[k0].1);
                }
            }
            assert forall|j: int| 0 <= j < k implies #[trigger] s[j].1 < s[k].1 by {
                assert(p[j].1 <= p[k0].1);
            }
        } else {
            assert(s[k0] == p[k0]);
            assert forall|j: int| 0 <= j < s.len() implies #[trigger] s[j].1 <= s[k0].1 by {
                if j < p.len() {
                    assert(p[j].1 <= p[k0].1);
                }
            }
            assert forall|j: int| 0 <= j < k0 implies #[trigger] s[j].1 < s[k0].1 by {
                assert(p[j].1 < p[k0].1);
            }
        }
    }
}

/// The download's info hash is the one sought, whatever its case.
pub open spec fn matches_hash(st: Aria2Status, want: Seq<char>) -> bool {
    lower(st.info_hash@) == want
}

pub open spec fn pair_view(p: Option<(String, i64)>) -> Option<(Seq<char>, int)> {
    match p {
        Some(x) => Some((x.0@, x.1 as int)),
        None => None,
    }
}

/// The search for the download that belongs to a magnet's info hash, fed
/// aria2's downloads one by one, in the order aria2 lists them.
pub struct MagnetSearch {
    /// The info hash sought, trimmed and lower-cased.
    pub want: Vec<char>,
    /// The first download seen with the largest total length.
    pub best: Option<(String, i64)>,
    /// The last metadata download seen.
    pub metadata_gid: Option<String>,
    /// Every content download seen so far, with its total length.
    pub content: Ghost<Seq<(Seq<char>, int)>>,
}

impl MagnetSearch {
    pub open spec fn wf(&self) -> bool {
        pair_view(self.best) == first_max(self.content@)
    }

    /// A search for `infohash`; none when the trimmed hash is empty.
    pub fn new(infohash: &str) -> (r: Option<MagnetSearch>)
        ensures
            r is None <==> trim(infohash@, TrimSet::WhiteSpace).len() == 0,
            r matches Some(s) ==> {
                &&& s.wf()
                &&& s.want@ == lower(trim(infohash@, TrimSet::WhiteSpace))
                &&& s.best is None
                &&& s.metadata_gid is None
                &&& s.content@ == Seq::<(Seq<char>, int)>::empty()
            },
    {
        let want = to_lower(&trimmed(infohash));
        if want.len() == 0 {
            return None;
        }
        Some(MagnetSearch { want, best: None, metadata_gid: None, content: Ghost(Seq::empty()) })
    }

    /// Looks at one download: returns the gid to use at once when the
    /// download matches and is followed by another one.
    pub fn step(&mut self, gid: String, st: &Aria2Status) -> (r: Option<String>)
        requires
            old(self).wf(),
        ensures
            final(self).wf(),
            final(self).want@ == old(self).want@,
            !matches_hash(*st, old(self).want@) ==> r is None
                && opt_view(final(self).metadata_gid) == opt_view(old(self).metadata_gid)
                && final(self).content@ == old(self).content@,
            matches_hash(*st, old(self).want@) && st.followed_by@.len() > 0 ==> (r matches Some(g)
                && g@ == st.followed_by@[0]@),
            matches_hash(*st, old(self).want@) && st.followed_by@.len() == 0
                && is_metadata_spec(*st) ==> r is None
                && opt_view(final(self).metadata_gid) == Some(gid@)
                && final(self).content@ == old(self).content@,
            matches_hash(*st, old(self).want@) && st.followed_by@.len() == 0
                && !is_metadata_spec(*st) ==> r is None
                && opt_view(final(self).metadata_gid) == opt_view(old(self).metadata_gid)
                && final(self).content@ == old(self).content@.push(
                (gid@, parse_i64_or_zero(st.total_length@)),
            ),
    {
        let h = to_lower(&chars_of(st.info_hash.as_str()));
        if !chars_eq(&h, &self.want) {
            return None;
        }
        if st.followed_by.len() > 0 {
            return Some(st.followed_by[0].clone());
        }
        if is_metadata_status(st) {
            self.metadata_gid = Some(gid);
            return None;
        }
        let total = parse_i64(st.total_length.as_str());
        let ghost entry = (gid@, total as int);
        let ghost old_content = self.content@;
        proof {
            assert((old_content.push(entry)).drop_last() =~= old_content);
        }
        let replace = match &self.best {
            None => true,
            Some(b) => total > b.1,
        };
        if replace {
            self.best = Some((gid, total));
        }
        self.content = Ghost(old_content.push(entry));
        None
    }

    /// The answer once every download was seen: the first content download
    /// with the largest total length, else the last metadata download.
    pub fn finish(self) -> (r: Option<String>)
        requires
            self.wf(),
        ensures
            opt_view(r) == match first_max(self.content@) {
                Some(b) => Some(b.0),
                None => opt_view(self.metadata_gid),
            },
    {
        match self.best {
            Some(b) => Some(b.0),
            None => self.metadata_gid,
        }
    }
}

// ---------------------------------------------------------------------------
// Options of a new download
// ---------------------------------------------------------------------------

/// The user agent that aria2 sends for plain HTTP downloads.
pub const BROWSER_UA: &'static str = "Mozilla/5.0 (Windows NT 10.0; Win64; x64) AppleWebKit/537.36 (KHTML, like Gecko) Chrome/131.0.0.0 Safari/537.36";

/// BitTorrent limits handed to aria2.
#[derive(Debug, Clone)]
pub struct BtSettings {
    /// The seed ratio, written with two decimals.
    pub seed_ratio_text: String,
    pub seed_time: u32,
    pub max_peers: u32,
    pub max_upload_limit: i64,
    pub max_download_limit: i64,
}

/// The value of one aria2 option: a text, or a list of texts.
#[derive(Debug, Clone)]
pub enum OptionValue {
    Text(String),
    List(Vec<String>),
}

pub enum OptionView {
    Text(Seq<char>),
    List(Seq<Seq<char>>),
}

pub open spec fn strings_of(v: Seq<String>) -> Seq<Seq<char>> {
    v.map_values(|s: String| s@)
}

pub open spec fn option_view(v: OptionValue) -> OptionView {
    match v {
        OptionValue::Text(s) => OptionView::Text(s@),
        OptionValue::List(l) => OptionView::List(strings_of(l@)),
    }
}

pub open spec fn options_view(v: Seq<(String, OptionValue)>) -> Seq<(Seq<char>, OptionView)> {
    v.map_values(|p: (String, OptionValue)| (p.0@, option_view(p.1)))
}

/// A signed number in decimal (`i64::to_string`).
pub open spec fn signed_decimal(n: int) -> Seq<char> {
    if n < 0 {
        seq!['-'] + crate::text::decimal((-n) as nat)
    } else {
        crate::text::decimal(n as nat)
    }
}

pub fn signed_decimal_exec(n: i64) -> (r: Vec<char>)
    ensures
        r@ == signed_decimal(n as int),
{
    if n < 0 {
        let m: u64 = if n == i64::MIN {
            0x8000_0000_0000_0000u64
        } else {
            (-n) as u64
        };
        let d = crate::text::decimal_exec(m);
        let mut out: Vec<char> = vec!['-'];
        crate::text::append_chars(&mut out, &d);
        assert(out@ =~= seq!['-'] + d@);
        out
    } else {
        crate::text::decimal_exec(n as u64)
    }
}

/// The options that carry BitTorrent limits.
pub open spec fn bt_options_spec(bt: BtSettings) -> Seq<(Seq<char>, OptionView)> {
    seq![
        ("seed-ratio"@, OptionView::Text(bt.seed_ratio_text@)),
        ("seed-time"@, OptionView::Text(crate::text::decimal(bt.seed_time as nat))),
        ("bt-max-peers"@, OptionView::Text(crate::text::decimal(bt.max_peers as nat))),
        ("max-upload-limit"@, OptionView::Text(signed_decimal(bt.max_upload_limit as int))),
        ("max-download-limit"@, OptionView::Text(signed_decimal(bt.max_download_limit as int))),
    ]
}

fn text_option(key: &str, value: Vec<char>) -> (r: (String, OptionValue))
    ensures
        r.0@ == key@,
        option_view(r.1) == OptionView::Text(value@),
{
    (key.to_string(), OptionValue::Text(string_of(&value)))
}

impl BtSettings {
    /// The aria2 options for these limits.
    pub fn option_map(&self) -> (r: Vec<(String, OptionValue)>)
        ensures
            options_view(r@) == bt_options_spec(*self),
    {
        let mut r: Vec<(String, OptionValue)> = Vec::new();
        r.push(text_option("seed-ratio", chars_of(self.seed_ratio_text.as_str())));
        r.push(text_option("seed-time", crate::text::decimal_exec(self.seed_time as u64)));
        r.push(text_option("bt-max-peers", crate::text::decimal_exec(self.max_peers as u64)));
        r.push(text_option("max-upload-limit", signed_decimal_exec(self.max_upload_limit)));
        r.push(text_option("max-download-limit", signed_decimal_exec(self.max_download_limit)));
        assert(options_view(r@) =~= bt_options_spec(*self));
        r
    }
}

/// How a download is added to aria2.
#[derive(Debug, Clone)]
pub struct AddOptions {
    pub dir: String,
    pub referer: Option<String>,
    pub filename: Option<String>,
    pub cookies: Option<String>,
    /// Magnet/torrent: skip HTTP headers, enable bt-save-metadata.
    pub bt: bool,
    pub bt_settings: Option<BtSettings>,
}

/// The HTTP headers of a plain download: the browser user agent, and the
/// cookies when there are any.
pub open spec fn headers_spec(cookies: Option<Seq<char>>) -> Seq<Seq<char>> {
    let ua = "User-Agent: "@ + BROWSER_UA@;
    match cookies {
        Some(c) => if c.len() > 0 {
            seq![ua, "Cookie: "@ + c]
        } else {
            seq![ua]
        },
        None => seq![ua],
    }
}

/// The aria2 options of a new download.  A BitTorrent download gets its
/// directory, `bt-save-metadata` and its limits; a plain one its directory,
/// its headers, and its referer and file name when given.
pub open spec fn download_options_spec(o: AddOptions) -> Seq<(Seq<char>, OptionView)> {
    let dir = ("dir"@, OptionView::Text(o.dir@));
    if o.bt {
        let base = seq![dir, ("bt-save-metadata"@, OptionView::Text("true"@))];
        match o.bt_settings {
            Some(bt) => base + bt_options_spec(bt),
            None => base,
        }
    } else {
        let with_headers = seq![dir, ("header"@, OptionView::List(headers_spec(opt_view(o.cookies))))];
        let with_referer = match o.referer {
            Some(r) => with_headers.push(("referer"@, OptionView::Text(r@))),
            None => with_headers,
        };
        match o.filename {
            Some(f) => with_referer.push(("out"@, OptionView::Text(f@))),
            None => with_referer,
        }
    }
}

pub fn download_options(opts: AddOptions) -> (r: Vec<(String, OptionValue)>)
    ensures
        options_view(r@) == download_options_spec(opts),
{
    let mut r: Vec<(String, OptionValue)> = Vec::new();
    r.push(text_option("dir", chars_of(opts.dir.as_str())));
    if opts.bt {
        r.push(text_option("bt-save-metadata", lit("true")));
        let ghost base = r@;
        match &opts.bt_settings {
            Some(bt) => {
                let mut extra = bt.option_map();
                r.append(&mut extra);
                assert(options_view(r@) =~= options_view(base) + bt_options_spec(*bt));
            },
            None => {},
        }
        assert(options_view(r@) =~= download_options_spec(opts));
        return r;
    }
    let ua = concat(&lit("User-Agent: "), &lit(BROWSER_UA));
    let mut headers: Vec<String> = Vec::new();
    headers.push(string_of(&ua));
    match &opts.cookies {
        Some(c) => {
            let cc = chars_of(c.as_str());
            if cc.len() > 0 {
                headers.push(string_of(&concat(&lit("Cookie: "), &cc)));
            }
        },
        None => {},
    }
    assert(strings_of(headers@) =~= headers_spec(opt_view(opts.cookies)));
    r.push(("header".to_string(), OptionValue::List(headers)));
    match &opts.referer {
        Some(rf) => r.push(text_option("referer", chars_of(rf.as_str()))),
        None => {},
    }
    match &opts.filename {
        Some(f) => r.push(text_option("out", chars_of(f.as_str()))),
        None => {},
    }
    assert(options_view(r@) =~= download_options_spec(opts));
    r
}

/// The secret's parameter that leads every RPC call, when a secret is set.
pub open spec fn token_param_spec(secret: Seq<char>) -> Option<Seq<char>> {
    if secret.len() == 0 {
        None
    } else {
        Some("token:"@ + secret)
    }
}

pub fn token_param(secret: &str) -> (r: Option<String>)
    ensures
        opt_view(r) == token_param_spec(secret@),
{
    let s = chars_of(secret);
    if s.len() == 0 {
        None
    } else {
        Some(string_of(&concat(&lit("token:"), &s)))
    }
}

/// Each option is given once: no two entries of the options for a new
/// download share a key.
pub proof fn law_download_option_keys_distinct(o: AddOptions)
    ensures
        forall|i: int, j: int|
            0 <= i < j < download_options_spec(o).len() ==> (#[trigger] download_options_spec(o)[i]).0
                != (#[trigger] download_options_spec(o)[j]).0,
{
    reveal_strlit("dir");
    reveal_strlit("bt-save-metadata");
    reveal_strlit("seed-ratio");
    reveal_strlit("seed-time");
    reveal_strlit("bt-max-peers");
    reveal_strlit("max-upload-limit");
    reveal_strlit("max-download-limit");
    reveal_strlit("header");
    reveal_strlit("referer");
    reveal_strlit("out");
    let s = download_options_spec(o);
    assert forall|i: int, j: int| 0 <= i < j < s.len() implies (#[trigger] s[i]).0 != (
    #[trigger] s[j]).0 by {
        if o.bt {
            assert(s.len() <= 7);
            assert(s[0].0 == "dir"@);
            assert(s[1].0 == "bt-save-metadata"@);
            if s.len() == 7 {
                assert(s[2].0 == "seed-ratio"@);
                assert(s[3].0 == "seed-time"@);
                assert(s[4].0 == "bt-max-peers"@);
                assert(s[5].0 == "max-upload-limit"@);
                assert(s[6].0 == "max-download-limit"@);
            }
            assert(s[i].0.len() != s[j].0.len() || s[i].0[0] != s[j].0[0]);
        } else {
            assert(s.len() <= 4);
            assert(s[0].0 == "dir"@);
            assert(s[1].0 == "header"@);
            if s.len() >= 3 {
                assert(s[2].0 == "referer"@ || s[2].0 == "out"@);
            }
            if s.len() == 4 {
                assert(s[2].0 == "referer"@);
                assert(s[3].0 == "out"@);
            }
            assert(s[i].0.len() != s[j].0.len() || s[i].0[0] != s[j].0[0]);
        }
    }
}

} // verus!
