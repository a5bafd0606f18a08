//! The syndication feed of the public posts.

use crate::blog_data::{
    get_posts, lemma_listed_posts_are_public, listing, PostMetadata, PostMetadataView,
    PostRepository, PostRepositoryView,
};
use crate::markers::SITE_ORIGIN;
use vstd::prelude::*;
use vstd::string::*;

verus! {

/// The title of the channel.
pub const FEED_TITLE: &'static str = "jam1garner";

/// The description of the channel.
pub const FEED_DESCRIPTION: &'static str = "Writeups, Hacking, and Hacky Software";

/// The path under which the site serves its posts.
pub const BLOG_PATH: &'static str = "/blog/";

/// One entry of the feed.
#[derive(Clone, Debug, PartialEq, Eq)]
pub struct FeedEntry {
    /// The title of the post.
    pub title: String,
    /// The address of the post.
    pub link: String,
    /// The identifier of the entry.
    pub guid: String,
    /// Whether `guid` is an address that will stay valid.
    pub permalink: bool,
    /// The date of the post, as its metadata has it.
    pub published: String,
}

/// The model of a `FeedEntry`.
pub struct FeedEntryView {
    pub title: Seq<char>,
    pub link: Seq<char>,
    pub guid: Seq<char>,
    pub permalink: bool,
    pub published: Seq<char>,
}

impl View for FeedEntry {
    type V = FeedEntryView;

    open spec fn view(&self) -> FeedEntryView {
        FeedEntryView {
            title: self.title@,
            link: self.link@,
            guid: self.guid@,
            permalink: self.permalink,
            published: self.published@,
        }
    }
}

impl DeepView for FeedEntry {
    type V = FeedEntryView;

    open spec fn deep_view(&self) -> FeedEntryView {
        self@
    }
}

/// A feed: the channel and its entries.
#[derive(Clone, Debug, PartialEq, Eq)]
pub struct Feed {
    /// The title of the channel.
    pub title: String,
    /// The address of the site.
    pub link: String,
    /// The description of the channel.
    pub description: String,
    /// The entries, in the order of the listing.
    pub entries: Vec<FeedEntry>,
}

/// The model of a `Feed`.
pub struct FeedView {
    pub title: Seq<char>,
    pub link: Seq<char>,
    pub description: Seq<char>,
    pub entries: Seq<FeedEntryView>,
}

impl View for Feed {
    type V = FeedView;

    open spec fn view(&self) -> FeedView {
        FeedView {
            title: self.title@,
            link: self.link@,
            description: self.description@,
            entries: self.entries.deep_view(),
        }
    }
}

/// The address under which the site serves the post `name`.
pub open spec fn post_address(name: Seq<char>) -> Seq<char> {
    SITE_ORIGIN@ + BLOG_PATH@ + name
}

/// The entry of a post: its title, its address as link and as
/// identifier, the identifier marked as no permalink, and its date.
pub open spec fn entry_of(post: PostMetadataView) -> FeedEntryView {
    FeedEntryView {
        title: post.title,
        link: post_address(post.name),
        guid: post_address(post.name),
        permalink: false,
        published: post.date,
    }
}

/// The feed of `posts`: the fixed channel with one entry for each post,
/// in the same order.
pub open spec fn feed_of(posts: Seq<PostMetadataView>) -> FeedView {
    FeedView {
        title: FEED_TITLE@,
        link: SITE_ORIGIN@,
        description: FEED_DESCRIPTION@,
        entries: Seq::new(posts.len(), |at: int| entry_of(posts[at])),
    }
}

/// The RSS document that the rss crate writes for `feed`. It is `None`
/// where one of the crate's builders refuses its input.
pub uninterp spec fn rss_document(feed: FeedView) -> Option<Seq<char>>;

/// Writes `feed` as an RSS document.
///
/// Builds an `rss::Channel` with the builders of the rss crate: the
/// three texts of the channel, and for each entry an `rss::Item` with
/// title, link, `rss::Guid` and publication date. Then calls the
/// channel's `to_string`. Nothing is proved of it: the contract only
/// names what the crate returns, as a function of the feed.
#[verifier::external_body]
pub(crate) fn write_rss(feed: &Feed) -> (xml: Option<String>)
    ensures
        xml.deep_view() == rss_document(feed@),
{
    let mut items = Vec::new();
    for entry in feed.entries.iter() {
        let guid = rss::GuidBuilder::default().value(entry.guid.clone())
            .permalink(entry.permalink).build().ok()?;
        let item = rss::ItemBuilder::default().title(entry.title.clone())
            .link(entry.link.clone()).guid(guid).pub_date(entry.published.clone()).build().ok()?;
        items.push(item);
    }
    let channel = rss::ChannelBuilder::default().title(feed.title.clone())
        .link(feed.link.clone()).description(feed.description.clone()).items(items).build().ok()?;
    Some(channel.to_string())
}

/// The address under which the site serves the post `name`.
pub fn post_link(name: &str) -> (address: String)
    ensures
        address@ == post_address(name@),
{
    String::from_str(SITE_ORIGIN).concat(BLOG_PATH).concat(name)
}

/// Builds the feed of `posts`: the fixed channel with one entry for each
/// post, in the same order.
pub fn build_feed(posts: &Vec<PostMetadata>) -> (feed: Feed)
    ensures
        feed@ == feed_of(posts.deep_view()),
        feed.entries.len() == posts.len(),
{
    let mut entries: Vec<FeedEntry> = Vec::new();
    for at in 0..posts.len()
        invariant
            entries.len() == at,
            forall|k: int| 0 <= k < at ==> (#[trigger] entries[k])@ == entry_of(posts[k]@),
    {
        let post = &posts[at];
        entries.push(
            FeedEntry {
                title: post.title.clone(),
                link: post_link(post.name.as_str()),
                guid: post_link(post.name.as_str()),
                permalink: false,
                published: post.date.clone(),
            },
        );
    }
    assert(entries.deep_view() == feed_of(posts.deep_view()).entries);
    Feed {
        title: String::from_str(FEED_TITLE),
        link: String::from_str(SITE_ORIGIN),
        description: String::from_str(FEED_DESCRIPTION),
        entries,
    }
}

/// Writes the feed of the public posts of `repository` as an RSS
/// document.
pub fn rss_feed(repository: &PostRepository) -> (xml: Option<String>)
    ensures
        xml.deep_view() == rss_document(feed_of(listing(repository@))),
{
    let posts = get_posts(repository);
    let feed = build_feed(&posts);
    write_rss(&feed)
}

/// Every entry of the feed of a repository is the entry of a public
/// post: it carries the address of a public source. Unlisted posts have
/// no part in the feed.
pub proof fn lemma_feed_entries_are_public(repository: PostRepositoryView, at: int)
    requires
        0 <= at < feed_of(listing(repository)).entries.len(),
    ensures
        exists|origin: int|
            0 <= origin < repository.public.len() && feed_of(listing(repository)).entries[at].link
                == post_address((#[trigger] repository.public[origin]).name),
{
    lemma_listed_posts_are_public(repository, at);
}

} // verus!
