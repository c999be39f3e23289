//! RSS feeds: which items of a feed become downloads.
use vstd::prelude::*;
use crate::store::{opt_view, AddTaskInput, RssFeed};
use crate::text::{chars_of, concat, lit, string_of};

verus! {

/// The pattern is a regular expression that `regex::Regex::new` accepts.
pub uninterp spec fn regex_valid(pattern: Seq<char>) -> bool;

/// What `is_match` of the regular expression compiled from `pattern`
/// says of `text`.
pub uninterp spec fn regex_match(pattern: Seq<char>, text: Seq<char>) -> bool;

/// `regex::Regex::new(pattern)` succeeds.  Named, not stated.
#[verifier::external_body]
fn regex_compiles(pattern: &str) -> (r: bool)
    ensures
        r == regex_valid(pattern@),
{
    regex::Regex::new(pattern).is_ok()
}

/// `regex::Regex::is_match` of the regular expression compiled from
/// `pattern` (compiled anew on each call).  Named, not stated; of a pattern
/// that does not compile nothing is said.
#[verifier::external_body]
fn regex_is_match(pattern: &str, text: &str) -> (r: bool)
    ensures
        regex_valid(pattern@) ==> r == regex_match(pattern@, text@),
{
    match regex::Regex::new(pattern) {
        Ok(re) => re.is_match(text),
        Err(_) => false,
    }
}

/// One item of a feed: its link, title and GUID, each when present.
#[derive(Debug, Clone)]
pub struct FeedItem {
    pub link: Option<String>,
    pub title: Option<String>,
    pub guid: Option<String>,
}

pub type ItemView = (Option<Seq<char>>, Option<Seq<char>>, Option<Seq<char>>);

pub open spec fn item_view(i: FeedItem) -> ItemView {
    (opt_view(i.link), opt_view(i.title), opt_view(i.guid))
}

pub open spec fn items_view(v: Seq<FeedItem>) -> Seq<ItemView> {
    v.map_values(|i: FeedItem| item_view(i))
}

/// The items of an RSS document, as `rss::Channel::read_from` reads them
/// (link, title and GUID value of each); none when it does not read.
pub uninterp spec fn rss_items(bytes: Seq<u8>) -> Option<Seq<ItemView>>;

/// `rss::Channel::read_from` on the bytes, and the link, title and GUID
/// value of each item.  Named, not stated.
#[verifier::external_body]
fn read_feed_items(bytes: &Vec<u8>) -> (r: Option<Vec<FeedItem>>)
    ensures
        match r {
            Some(v) => rss_items(bytes@) == Some(items_view(v@)),
            None => rss_items(bytes@) is None,
        },
{
    match rss::Channel::read_from(bytes.as_slice()) {
        Ok(ch) => Some(
            ch.items().iter().map(
                |it| FeedItem {
                    link: it.link().map(str::to_string),
                    title: it.title().map(str::to_string),
                    guid: it.guid().map(|g| g.value().to_string()),
                },
            ).collect(),
        ),
        Err(_) => None,
    }
}

/// An item that becomes a download: its GUID (for deduplication) and its
/// link.
#[derive(Debug, Clone)]
pub struct FeedEntry {
    pub guid: String,
    pub link: String,
}

/// The entry an item gives: items without a link are skipped; with a
/// filter, items whose title (empty when absent) and link both fail to
/// match are skipped; the GUID is the link when the item has none.
pub open spec fn entry_of(filter: Option<Seq<char>>, item: ItemView) -> Option<(Seq<char>, Seq<char>)> {
    match item.0 {
        None => None,
        Some(link) => if link.len() == 0 {
            None
        } else if (match filter {
            Some(p) => {
                let title = match item.1 {
                    Some(t) => t,
                    None => Seq::empty(),
                };
                !regex_match(p, title) && !regex_match(p, link)
            },
            None => false,
        }) {
            None
        } else {
            Some(
                (
                    match item.2 {
                        Some(g) => g,
                        None => link,
                    },
                    link,
                ),
            )
        },
    }
}

/// The entries of a feed's items, in order.
pub open spec fn entries_spec(filter: Option<Seq<char>>, items: Seq<ItemView>) -> Seq<
    (Seq<char>, Seq<char>),
>
    decreases items.len(),
{
    if items.len() == 0 {
        Seq::empty()
    } else {
        let rest = entries_spec(filter, items.drop_last());
        match entry_of(filter, items.last()) {
            Some(e) => rest.push(e),
            None => rest,
        }
    }
}

pub open spec fn entries_view(v: Seq<FeedEntry>) -> Seq<(Seq<char>, Seq<char>)> {
    v.map_values(|e: FeedEntry| (e.guid@, e.link@))
}

fn entry_exec(filter: &Option<String>, item: &FeedItem) -> (r: Option<FeedEntry>)
    requires
        match *filter {
            Some(p) => regex_valid(p@),
            None => true,
        },
    ensures
        match entry_of(opt_view(*filter), item_view(*item)) {
            Some(e) => r matches Some(x) && (x.guid@, x.link@) == e,
            None => r is None,
        },
{
    let link = match &item.link {
        None => {
            return None;
        },
        Some(l) => l,
    };
    if link.as_str().is_empty() {
        return None;
    }
    proof {
        reveal_strlit("");
    }
    match filter {
        Some(p) => {
            let title: &str = match &item.title {
                Some(t) => t.as_str(),
                None => "",
            };
            let m1 = regex_is_match(p.as_str(), title);
            let m2 = regex_is_match(p.as_str(), link.as_str());
            assert(regex_valid(p@));
            assert(m1 == regex_match(p@, title@));
            assert(title@ == match item.title { Some(t) => t@, None => Seq::<char>::empty() });
            assert(m2 == regex_match(p@, link@));
            if !m1 && !m2 {
                return None;
            }
        },
        None => {},
    }
    let guid = match &item.guid {
        Some(g) => g.clone(),
        None => link.clone(),
    };
    Some(FeedEntry { guid, link: link.clone() })
}

/// The entries of a feed's items under a filter that compiles.
pub fn feed_entries(filter: &Option<String>, items: &Vec<FeedItem>) -> (r: Vec<FeedEntry>)
    requires
        match *filter {
            Some(p) => regex_valid(p@),
            None => true,
        },
    ensures
        entries_view(r@) == entries_spec(opt_view(*filter), items_view(items@)),
{
    let mut out: Vec<FeedEntry> = Vec::new();
    let mut i: usize = 0;
    while i < items.len()
        invariant
            i <= items@.len(),
            match *filter {
                Some(p) => regex_valid(p@),
                None => true,
            },
            entries_view(out@) == entries_spec(opt_view(*filter), items_view(items@.take(i as int))),
        decreases items.len() - i,
    {
        assert(items_view(items@.take(i + 1)).drop_last() =~= items_view(items@.take(i as int)));
        assert(items_view(items@.take(i + 1)).last() == item_view(items@[i as int]));
        match entry_exec(filter, &items[i]) {
            Some(e) => {
                let ghost before = out@;
                out.push(e);
                assert(entries_view(out@) =~= entries_view(before).push((e.guid@, e.link@)));
            },
            None => {},
        }
        i = i + 1;
    }
    assert(items@.take(items.len() as int) =~= items@);
    out
}

/// Why a feed could not be read.
#[derive(Debug, Clone, Copy, PartialEq, Eq, Structural)]
pub enum FeedError {
    /// The document is not RSS.
    Unreadable,
    /// The feed's filter is not a valid regular expression.
    BadFilter,
}

/// The entries of a fetched feed document: an unreadable document, then
/// a filter that does not compile, is an error.
pub fn poll_feed_entries(feed: &RssFeed, body: &Vec<u8>) -> (r: Result<Vec<FeedEntry>, FeedError>)
    ensures
        match rss_items(body@) {
            None => r == Err::<Vec<FeedEntry>, FeedError>(FeedError::Unreadable),
            Some(items) => match opt_view(feed.filter_regex) {
                Some(p) if !regex_valid(p) => r == Err::<Vec<FeedEntry>, FeedError>(
                    FeedError::BadFilter,
                ),
                f => r matches Ok(v) && entries_view(v@) == entries_spec(f, items),
            },
        },
{
    let items = match read_feed_items(body) {
        Some(v) => v,
        None => {
            return Err(FeedError::Unreadable);
        },
    };
    match &feed.filter_regex {
        Some(p) => {
            if !regex_compiles(p.as_str()) {
                return Err(FeedError::BadFilter);
            }
        },
        None => {},
    }
    Ok(feed_entries(&feed.filter_regex, &items))
}

/// The download request for a feed's new item: its link, in the feed's
/// category, with the feed as referer and source.
pub fn rss_task_input(feed: &RssFeed, link: &str) -> (r: AddTaskInput)
    ensures
        r.url@ == link@,
        r.category@ == feed.category@,
        r.filename is None,
        opt_view(r.referer) == Some(feed.url@),
        r.cookies is None,
        !r.force_ytdlp,
        r.quality is None,
        opt_view(r.source) == Some("rss:"@ + feed.id@),
{
    AddTaskInput {
        url: string_of(&chars_of(link)),
        category: feed.category.clone(),
        filename: None,
        referer: Some(feed.url.clone()),
        cookies: None,
        force_ytdlp: false,
        quality: None,
        source: Some(string_of(&concat(&lit("rss:"), &chars_of(feed.id.as_str())))),
    }
}

} // verus!
