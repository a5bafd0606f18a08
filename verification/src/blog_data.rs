//! The post repository: the markdown sources of the public and of the
//! unlisted posts, the metadata derived from each source, the listing of
//! the public posts and the lookup of a single post.

use crate::calendar::{format_utc, utc_formatted};
use crate::markers::{
    extract_first_image, extract_post_timestamp, extract_post_title, thumbnail_of, timestamp_of,
    title_of,
};
use crate::render::{markdown_html, render_markdown, RenderOptions};
use crate::text::{chars_of, first_match, is_first, lemma_first_match, occurs_at, slice_string, word_at};
use vstd::prelude::*;
use vstd::string::*;

verus! {

/// The strftime pattern of a post's date: day, month name and year, as in
/// `04 July 2021`.
pub const DATE_PATTERN: &'static str = "%d %B %Y";

/// The directory of the public posts.
pub const PUBLIC_DIRECTORY: &'static str = "posts/";

/// The directory of the unlisted posts.
pub const UNLISTED_DIRECTORY: &'static str = "private/";

/// The suffix of the name of a post's file.
pub const POST_SUFFIX: &'static str = ".md";

/// The markdown source of one post.
#[derive(Clone, Debug, PartialEq, Eq)]
pub struct PostSource {
    /// The identifier of the post: the stem of its file name.
    pub name: String,
    /// The markdown text.
    pub text: String,
}

/// The model of a `PostSource`.
pub struct PostSourceView {
    pub name: Seq<char>,
    pub text: Seq<char>,
}

impl View for PostSource {
    type V = PostSourceView;

    open spec fn view(&self) -> PostSourceView {
        PostSourceView { name: self.name@, text: self.text@ }
    }
}

impl DeepView for PostSource {
    type V = PostSourceView;

    open spec fn deep_view(&self) -> PostSourceView {
        self@
    }
}

/// What the index tells of one post.
#[derive(Clone, Debug, PartialEq, Eq)]
pub struct PostMetadata {
    /// The identifier of the post.
    pub name: String,
    /// The title: the text of the first heading.
    pub title: String,
    /// The address of the thumbnail, empty where the post has none.
    pub thumbnail: String,
    /// The calendar date of `timestamp`, in UTC.
    pub date: String,
    /// Seconds since the Unix epoch, 0 where the post states none.
    pub timestamp: i64,
}

/// The model of a `PostMetadata`.
pub struct PostMetadataView {
    pub name: Seq<char>,
    pub title: Seq<char>,
    pub thumbnail: Seq<char>,
    pub date: Seq<char>,
    pub timestamp: i64,
}

impl View for PostMetadata {
    type V = PostMetadataView;

    open spec fn view(&self) -> PostMetadataView {
        PostMetadataView {
            name: self.name@,
            title: self.title@,
            thumbnail: self.thumbnail@,
            date: self.date@,
            timestamp: self.timestamp,
        }
    }
}

impl DeepView for PostMetadata {
    type V = PostMetadataView;

    open spec fn deep_view(&self) -> PostMetadataView {
        self@
    }
}

/// One post in full: its metadata and its rendered text.
#[derive(Clone, Debug, PartialEq, Eq)]
pub struct PostRecord {
    /// The metadata, as in the index.
    pub metadata: PostMetadata,
    /// The HTML rendered from the whole markdown text.
    pub body: String,
}

/// The model of a `PostRecord`.
pub struct PostRecordView {
    pub metadata: PostMetadataView,
    pub body: Seq<char>,
}

impl View for PostRecord {
    type V = PostRecordView;

    open spec fn view(&self) -> PostRecordView {
        PostRecordView { metadata: self.metadata@, body: self.body@ }
    }
}

impl DeepView for PostRecord {
    type V = PostRecordView;

    open spec fn deep_view(&self) -> PostRecordView {
        self@
    }
}

/// The sources of all posts. Public posts are listed and can be looked
/// up; unlisted posts can only be looked up.
#[derive(Clone, Debug, PartialEq, Eq)]
pub struct PostRepository {
    /// The public posts, in the order in which they were found.
    pub public: Vec<PostSource>,
    /// The unlisted posts.
    pub unlisted: Vec<PostSource>,
}

/// The model of a `PostRepository`.
pub struct PostRepositoryView {
    pub public: Seq<PostSourceView>,
    pub unlisted: Seq<PostSourceView>,
}

impl View for PostRepository {
    type V = PostRepositoryView;

    open spec fn view(&self) -> PostRepositoryView {
        PostRepositoryView {
            public: self.public.deep_view(),
            unlisted: self.unlisted.deep_view(),
        }
    }
}

/// The timestamp of a post with the text `text`: the one it states, or 0.
pub open spec fn post_timestamp(text: Seq<char>) -> i64 {
    match timestamp_of(text) {
        Some(timestamp) => timestamp,
        None => 0,
    }
}

/// The thumbnail of a post with the text `text`: the one it shows, or the
/// empty string.
pub open spec fn post_thumbnail(text: Seq<char>) -> Seq<char> {
    match thumbnail_of(text) {
        Some(url) => url,
        None => Seq::empty(),
    }
}

/// The metadata of `source`, where `date` is the calendar date of its
/// timestamp. A source without a title has none, nor has one whose
/// timestamp has no calendar date.
pub open spec fn described(source: PostSourceView, date: Option<Seq<char>>) -> Option<
    PostMetadataView,
> {
    match (title_of(source.text), date) {
        (Some(title), Some(date)) => Some(
            PostMetadataView {
                name: source.name,
                title,
                thumbnail: post_thumbnail(source.text),
                date,
                timestamp: post_timestamp(source.text),
            },
        ),
        _ => None,
    }
}

/// The metadata of `source`.
pub open spec fn metadata_of(source: PostSourceView) -> Option<PostMetadataView> {
    described(source, utc_formatted(post_timestamp(source.text), DATE_PATTERN@))
}

/// Derives the metadata of `source`, given the calendar date of its
/// timestamp.
pub fn describe_post(source: &PostSource, date: Option<String>) -> (metadata: Option<PostMetadata>)
    ensures
        metadata.deep_view() == described(source@, date.deep_view()),
{
    let title = match extract_post_title(source.text.as_str()) {
        Some(title) => title,
        None => {
            return None;
        },
    };
    let date = match date {
        Some(date) => date,
        None => {
            return None;
        },
    };
    let thumbnail = match extract_first_image(source.text.as_str()) {
        Some(url) => url,
        None => String::new(),
    };
    let timestamp = match extract_post_timestamp(source.text.as_str()) {
        Some(timestamp) => timestamp,
        None => 0,
    };
    Some(PostMetadata { name: source.name.clone(), title, thumbnail, date, timestamp })
}

/// Derives the metadata of `source`: its name, its title, its thumbnail
/// or the empty string, its timestamp or 0, and the calendar date of that
/// timestamp.
pub fn post_metadata(source: &PostSource) -> (metadata: Option<PostMetadata>)
    ensures
        metadata.deep_view() == metadata_of(source@),
{
    let timestamp = match extract_post_timestamp(source.text.as_str()) {
        Some(timestamp) => timestamp,
        None => 0,
    };
    describe_post(source, format_utc(timestamp, DATE_PATTERN))
}

/// `sorted` with `post` put in before the first post that is older than
/// it.
pub open spec fn insert_by_age(sorted: Seq<PostMetadataView>, post: PostMetadataView) -> Seq<
    PostMetadataView,
>
    decreases sorted.len(),
{
    if sorted.len() == 0 || sorted[0].timestamp < post.timestamp {
        seq![post] + sorted
    } else {
        seq![sorted[0]] + insert_by_age(sorted.drop_first(), post)
    }
}

/// `posts` from the newest to the oldest. Of two posts with the same
/// timestamp, the one that stands later in `posts` comes first.
pub open spec fn newest_first(posts: Seq<PostMetadataView>) -> Seq<PostMetadataView>
    decreases posts.len(),
{
    if posts.len() == 0 {
        Seq::empty()
    } else {
        insert_by_age(newest_first(posts.drop_first()), posts[0])
    }
}

/// Whether no post stands before a newer one.
pub open spec fn is_newest_first(posts: Seq<PostMetadataView>) -> bool {
    forall|i: int, j: int| 0 <= i <= j < posts.len() ==> posts[i].timestamp >= posts[j].timestamp
}

/// `insert_by_age` puts the post at the index behind all posts that are
/// not older than it.
proof fn lemma_insert_by_age_at(sorted: Seq<PostMetadataView>, post: PostMetadataView, at: int)
    requires
        0 <= at <= sorted.len(),
        forall|k: int| 0 <= k < at ==> sorted[k].timestamp >= post.timestamp,
        at < sorted.len() ==> sorted[at].timestamp < post.timestamp,
    ensures
        insert_by_age(sorted, post) == sorted.insert(at, post),
    decreases at,
{
    if at == 0 {
        assert(seq![post] + sorted == sorted.insert(0, post));
    } else {
        let rest = sorted.drop_first();
        assert forall|k: int| 0 <= k < at - 1 implies rest[k].timestamp >= post.timestamp by {
            assert(rest[k] == sorted[k + 1]);
        }
        lemma_insert_by_age_at(rest, post, at - 1);
        assert(seq![sorted[0]] + rest.insert(at - 1, post) == sorted.insert(at, post));
    }
}

/// The index at which `insert_by_age` puts a post into `sorted`.
spec fn age_rank(sorted: Seq<PostMetadataView>, post: PostMetadataView) -> int
    decreases sorted.len(),
{
    if sorted.len() == 0 || sorted[0].timestamp < post.timestamp {
        0
    } else {
        1 + age_rank(sorted.drop_first(), post)
    }
}

/// `insert_by_age` is an insertion at `age_rank`, which stands behind the
/// posts that are not older and, in a sorted sequence, before those that
/// are.
proof fn lemma_age_rank(sorted: Seq<PostMetadataView>, post: PostMetadataView)
    ensures
        0 <= age_rank(sorted, post) <= sorted.len(),
        insert_by_age(sorted, post) == sorted.insert(age_rank(sorted, post), post),
        forall|k: int| 0 <= k < age_rank(sorted, post) ==> sorted[k].timestamp >= post.timestamp,
        is_newest_first(sorted) ==> forall|k: int|
            age_rank(sorted, post) <= k < sorted.len() ==> sorted[k].timestamp < post.timestamp,
    decreases sorted.len(),
{
    if sorted.len() == 0 || sorted[0].timestamp < post.timestamp {
        assert(seq![post] + sorted == sorted.insert(0, post));
    } else {
        let rest = sorted.drop_first();
        lemma_age_rank(rest, post);
        let rank = age_rank(rest, post);
        assert(seq![sorted[0]] + rest.insert(rank, post) == sorted.insert(rank + 1, post));
        assert forall|k: int| 0 <= k < rank + 1 implies sorted[k].timestamp
            >= post.timestamp by {
            if k > 0 {
                assert(rest[k - 1] == sorted[k]);
            }
        }
        if is_newest_first(sorted) {
            assert forall|i: int, j: int| 0 <= i <= j < rest.len() implies rest[i].timestamp
                >= rest[j].timestamp by {
                assert(rest[i] == sorted[i + 1] && rest[j] == sorted[j + 1]);
            }
            assert forall|k: int| rank + 1 <= k < sorted.len() implies sorted[k].timestamp
                < post.timestamp by {
                assert(rest[k - 1] == sorted[k]);
            }
        }
    }
}

/// The listing order: `newest_first` never puts a post before a newer
/// one.
pub proof fn lemma_newest_first_sorted(posts: Seq<PostMetadataView>)
    ensures
        is_newest_first(newest_first(posts)),
    decreases posts.len(),
{
    if posts.len() > 0 {
        let sorted = newest_first(posts.drop_first());
        let post = posts[0];
        lemma_newest_first_sorted(posts.drop_first());
        lemma_age_rank(sorted, post);
        let rank = age_rank(sorted, post);
        let merged = sorted.insert(rank, post);
        sorted.insert_ensures(rank, post);
        assert forall|i: int, j: int| 0 <= i <= j < merged.len() implies merged[i].timestamp
            >= merged[j].timestamp by {
            if i < rank && j > rank {
                assert(merged[j] == sorted[j - 1]);
            } else if i > rank {
                assert(merged[i] == sorted[i - 1] && merged[j] == sorted[j - 1]);
            } else if i == rank && j > rank {
                assert(merged[j] == sorted[j - 1]);
            }
        }
    }
}

/// `newest_first` keeps every post, as often as it occurs.
pub proof fn lemma_newest_first_permutes(posts: Seq<PostMetadataView>)
    ensures
        newest_first(posts).to_multiset() == posts.to_multiset(),
        newest_first(posts).len() == posts.len(),
    decreases posts.len(),
{
    broadcast use vstd::seq_lib::group_to_multiset_ensures;

    if posts.len() > 0 {
        let sorted = newest_first(posts.drop_first());
        let post = posts[0];
        lemma_newest_first_permutes(posts.drop_first());
        lemma_age_rank(sorted, post);
        sorted.insert_ensures(age_rank(sorted, post), post);
        vstd::seq_lib::to_multiset_insert(sorted, age_rank(sorted, post), post);
        vstd::seq_lib::to_multiset_insert(posts.drop_first(), 0, post);
        assert(posts.drop_first().insert(0, post) == posts);
    } else {
        assert(posts.to_multiset() =~= newest_first(posts).to_multiset());
    }
}

/// Orders posts from the newest to the oldest. Of two posts with the same
/// timestamp, the one that stood later comes first.
pub fn sort_posts(posts: Vec<PostMetadata>) -> (sorted: Vec<PostMetadata>)
    ensures
        sorted.deep_view() == newest_first(posts.deep_view()),
{
    let ghost all = posts.deep_view();
    let mut rest = posts;
    let mut sorted: Vec<PostMetadata> = Vec::new();
    assert(all.skip(all.len() as int) == Seq::<PostMetadataView>::empty());
    assert(sorted.deep_view() == Seq::<PostMetadataView>::empty());
    while rest.len() > 0
        invariant
            rest.len() <= all.len(),
            rest.deep_view() == all.take(rest.len() as int),
            sorted.deep_view() == newest_first(all.skip(rest.len() as int)),
        decreases rest.len(),
    {
        let ghost before = rest.deep_view();
        let ghost placed = sorted.deep_view();
        let post = rest.pop().unwrap();
        assert(post@ == before[before.len() - 1]);
        let mut at: usize = 0;
        while at < sorted.len() && sorted[at].timestamp >= post.timestamp
            invariant
                at <= sorted.len(),
                placed == sorted.deep_view(),
                forall|k: int| 0 <= k < at ==> placed[k].timestamp >= post.timestamp,
            decreases sorted.len() - at,
        {
            at += 1;
        }
        proof {
            let tail = all.skip(rest.len() as int);
            assert(tail[0] == post@);
            assert(tail.drop_first() == all.skip(rest.len() + 1));
            lemma_insert_by_age_at(placed, post@, at as int);
        }
        sorted.insert(at, post);
        assert(sorted.deep_view() == placed.insert(at as int, post@));
        assert(rest.deep_view() == all.take(rest.len() as int));
    }
    assert(all.skip(0) == all);
    sorted
}

/// The metadata of those of `sources` that have metadata, in the order of
/// the sources.
pub open spec fn described_posts(sources: Seq<PostSourceView>) -> Seq<PostMetadataView>
    decreases sources.len(),
{
    if sources.len() == 0 {
        Seq::empty()
    } else {
        let earlier = described_posts(sources.drop_last());
        match metadata_of(sources.last()) {
            Some(metadata) => earlier.push(metadata),
            None => earlier,
        }
    }
}

/// The index of a repository: the metadata of its public posts, from the
/// newest to the oldest.
pub open spec fn listing(repository: PostRepositoryView) -> Seq<PostMetadataView> {
    newest_first(described_posts(repository.public))
}

/// The switches under which the text of a post is rendered: the GitHub
/// extensions but the tag filter, and raw HTML passed through.
pub open spec fn post_rendering() -> RenderOptions {
    RenderOptions {
        autolink: true,
        tagfilter: false,
        strikethrough: true,
        table: true,
        footnotes: true,
        raw_html: true,
        github_pre_lang: true,
    }
}

/// The record of `source`: its metadata and its whole text, rendered.
pub open spec fn record_of(source: PostSourceView) -> Option<PostRecordView> {
    match metadata_of(source) {
        Some(metadata) => Some(
            PostRecordView { metadata, body: markdown_html(source.text, post_rendering()) },
        ),
        None => None,
    }
}

/// Whether the source at `at` has the name `name`, as a predicate on
/// positions.
pub open spec fn named(sources: Seq<PostSourceView>, name: Seq<char>) -> spec_fn(int) -> bool {
    |at: int| 0 <= at < sources.len() && sources[at].name == name
}

/// The first of `sources` with the name `name`.
pub open spec fn source_named(sources: Seq<PostSourceView>, name: Seq<char>) -> Option<
    PostSourceView,
> {
    match first_match(named(sources, name)) {
        Some(at) => Some(sources[at]),
        None => None,
    }
}

/// The sources among which a post is looked up: the public ones or the
/// unlisted ones.
pub open spec fn shelf(repository: PostRepositoryView, public: bool) -> Seq<PostSourceView> {
    if public {
        repository.public
    } else {
        repository.unlisted
    }
}

/// The record of the post `name`, looked up among the public or among
/// the unlisted posts.
pub open spec fn post_of(repository: PostRepositoryView, name: Seq<char>, public: bool) -> Option<
    PostRecordView,
> {
    match source_named(shelf(repository, public), name) {
        Some(source) => record_of(source),
        None => None,
    }
}

/// Finds the first of `sources` whose name is `name`.
pub fn find_post(sources: &Vec<PostSource>, name: &str) -> (found: Option<usize>)
    ensures
        match found {
            Some(at) => at < sources.len() && first_match(named(sources.deep_view(), name@))
                == Some(at as int),
            None => first_match(named(sources.deep_view(), name@)) is None,
        },
{
    let ghost names = named(sources.deep_view(), name@);
    let wanted = name.to_owned();
    let mut at: usize = 0;
    while at < sources.len()
        invariant
            at <= sources.len(),
            wanted@ == name@,
            names == named(sources.deep_view(), name@),
            forall|earlier: int| 0 <= earlier < at ==> !#[trigger] names(earlier),
        decreases sources.len() - at,
    {
        if sources[at].name == wanted {
            proof {
                assert(names(at as int));
                assert(is_first(names, at as int));
                lemma_first_match(names);
            }
            return Some(at);
        }
        assert(!names(at as int));
        at += 1;
    }
    proof {
        lemma_first_match(names);
        if first_match(names) is Some {
            assert(names(first_match(names).unwrap()));
        }
    }
    None
}

/// The switches under which the text of a post is rendered.
pub fn post_render_options() -> (options: RenderOptions)
    ensures
        options == post_rendering(),
{
    RenderOptions {
        autolink: true,
        tagfilter: false,
        strikethrough: true,
        table: true,
        footnotes: true,
        raw_html: true,
        github_pre_lang: true,
    }
}

/// Looks up the post `post_name`, among the public posts where `public`
/// is set and among the unlisted ones where it is not. There is no record
/// where no source has that name, nor where the first source of that name
/// has no metadata.
pub fn get_post(repository: &PostRepository, post_name: &str, public: bool) -> (record: Option<
    PostRecord,
>)
    ensures
        record.deep_view() == post_of(repository@, post_name@, public),
{
    let sources = if public {
        &repository.public
    } else {
        &repository.unlisted
    };
    assert(sources.deep_view() == shelf(repository@, public));
    let source = match find_post(sources, post_name) {
        Some(at) => {
            assert(sources.deep_view()[at as int] == sources[at as int]@);
            &sources[at]
        },
        None => {
            return None;
        },
    };
    match post_metadata(source) {
        Some(metadata) => {
            let body = render_markdown(source.text.as_str(), &post_render_options());
            Some(PostRecord { metadata, body })
        },
        None => None,
    }
}

/// Lists the public posts of `repository` that have metadata, from the
/// newest to the oldest.
pub fn get_posts(repository: &PostRepository) -> (posts: Vec<PostMetadata>)
    ensures
        posts.deep_view() == listing(repository@),
        is_newest_first(posts.deep_view()),
{
    let ghost sources = repository.public.deep_view();
    let mut described: Vec<PostMetadata> = Vec::new();
    assert(sources.take(0) == Seq::<PostSourceView>::empty());
    assert(described.deep_view() == Seq::<PostMetadataView>::empty());
    for at in 0..repository.public.len()
        invariant
            sources == repository.public.deep_view(),
            described.deep_view() == described_posts(sources.take(at as int)),
    {
        let ghost earlier = described.deep_view();
        assert(sources.take(at + 1).drop_last() == sources.take(at as int));
        assert(sources.take(at + 1).last() == repository.public[at as int]@);
        match post_metadata(&repository.public[at]) {
            Some(metadata) => {
                described.push(metadata);
                assert(described.deep_view() == earlier.push(metadata@));
            },
            None => {},
        }
    }
    assert(sources.take(sources.len() as int) == sources);
    proof {
        lemma_newest_first_sorted(described.deep_view());
    }
    sort_posts(described)
}

/// Every described post is the metadata of one of the sources.
proof fn lemma_described_posts_origin(sources: Seq<PostSourceView>, at: int)
    requires
        0 <= at < described_posts(sources).len(),
    ensures
        exists|origin: int|
            0 <= origin < sources.len() && metadata_of(#[trigger] sources[origin]) == Some(
                described_posts(sources)[at],
            ),
    decreases sources.len(),
{
    let earlier = described_posts(sources.drop_last());
    if at < earlier.len() {
        lemma_described_posts_origin(sources.drop_last(), at);
        let origin = choose|origin: int|
            0 <= origin < sources.drop_last().len() && metadata_of(
                #[trigger] sources.drop_last()[origin],
            ) == Some(earlier[at]);
        assert(sources[origin] == sources.drop_last()[origin]);
    } else {
        assert(metadata_of(sources[sources.len() - 1]) == Some(described_posts(sources)[at]));
    }
}

/// Every listed post is the metadata of a public source, and so has the
/// name and the title of a public source that has a title.
pub proof fn lemma_listed_posts_are_public(repository: PostRepositoryView, at: int)
    requires
        0 <= at < listing(repository).len(),
    ensures
        exists|origin: int|
            {
                &&& 0 <= origin < repository.public.len()
                &&& metadata_of(#[trigger] repository.public[origin]) == Some(
                    listing(repository)[at],
                )
                &&& repository.public[origin].name == listing(repository)[at].name
                &&& title_of(repository.public[origin].text) == Some(
                    listing(repository)[at].title,
                )
            },
{
    broadcast use vstd::seq_lib::group_to_multiset_ensures;

    let described = described_posts(repository.public);
    let post = listing(repository)[at];
    lemma_newest_first_permutes(described);
    assert(listing(repository).contains(post));
    assert(described.to_multiset().count(post) > 0);
    assert(described.contains(post));
    let from = choose|from: int| 0 <= from < described.len() && described[from] == post;
    lemma_described_posts_origin(repository.public, from);
}

/// The metadata of every source that has metadata is among the
/// described posts.
proof fn lemma_described_posts_hold(sources: Seq<PostSourceView>, origin: int)
    requires
        0 <= origin < sources.len(),
        metadata_of(sources[origin]) is Some,
    ensures
        described_posts(sources).contains(metadata_of(sources[origin]).unwrap()),
    decreases sources.len(),
{
    let earlier = described_posts(sources.drop_last());
    let post = metadata_of(sources[origin]).unwrap();
    if origin < sources.len() - 1 {
        lemma_described_posts_hold(sources.drop_last(), origin);
        assert(sources.drop_last()[origin] == sources[origin]);
        let at = choose|at: int| 0 <= at < earlier.len() && earlier[at] == post;
        assert(described_posts(sources)[at] == post);
    } else {
        assert(described_posts(sources)[earlier.len() as int] == post);
    }
}

/// Every public source that has metadata is listed.
pub proof fn lemma_public_posts_are_listed(repository: PostRepositoryView, origin: int)
    requires
        0 <= origin < repository.public.len(),
        metadata_of(repository.public[origin]) is Some,
    ensures
        listing(repository).contains(metadata_of(repository.public[origin]).unwrap()),
        listing(repository).len() == described_posts(repository.public).len(),
{
    broadcast use vstd::seq_lib::group_to_multiset_ensures;

    let described = described_posts(repository.public);
    let post = metadata_of(repository.public[origin]).unwrap();
    lemma_described_posts_hold(repository.public, origin);
    lemma_newest_first_permutes(described);
    assert(described.to_multiset().count(post) > 0);
}

/// Whether no two of `sources` bear the same name, as it is of the files
/// of one directory.
pub open spec fn has_unique_names(sources: Seq<PostSourceView>) -> bool {
    forall|first: int, second: int|
        0 <= first < second < sources.len() ==> sources[first].name != sources[second].name
}

/// Among sources with unique names, the lookup of the name of a source
/// finds that source.
pub proof fn lemma_unique_names_lookup(sources: Seq<PostSourceView>, at: int)
    requires
        has_unique_names(sources),
        0 <= at < sources.len(),
    ensures
        source_named(sources, sources[at].name) == Some(sources[at]),
{
    let names = named(sources, sources[at].name);
    assert(names(at));
    assert forall|earlier: int| 0 <= earlier < at implies !#[trigger] names(earlier) by {}
    assert(is_first(names, at));
    lemma_first_match(names);
}

/// A source without a title has neither metadata nor a record.
pub proof fn lemma_untitled_source_has_no_metadata(source: PostSourceView)
    requires
        title_of(source.text) is None,
    ensures
        metadata_of(source) is None,
        record_of(source) is None,
{
}

/// A post without a title is hidden: no listed post stems from its
/// source, and a lookup that comes upon its source finds nothing.
pub proof fn lemma_untitled_post_is_hidden(
    repository: PostRepositoryView,
    name: Seq<char>,
    public: bool,
)
    requires
        source_named(shelf(repository, public), name) matches Some(source) && title_of(
            source.text,
        ) is None,
    ensures
        post_of(repository, name, public) is None,
        forall|at: int|
            0 <= at < listing(repository).len() ==> Some(#[trigger] listing(repository)[at])
                != metadata_of(source_named(shelf(repository, public), name).unwrap()),
{
}

/// A post that only the unlisted shelf holds is never listed, yet a
/// lookup among the unlisted posts finds it where it has metadata.
pub proof fn lemma_unlisted_post(repository: PostRepositoryView, name: Seq<char>)
    requires
        source_named(repository.public, name) is None,
        source_named(repository.unlisted, name) matches Some(source) && metadata_of(source) is Some,
    ensures
        forall|at: int|
            0 <= at < listing(repository).len() ==> (#[trigger] listing(repository)[at]).name
                != name,
        post_of(repository, name, false) matches Some(record) && record.metadata.name == name,
{
    let names = named(repository.public, name);
    lemma_first_match(names);
    assert forall|at: int| 0 <= at < listing(repository).len() implies (#[trigger] listing(
        repository,
    )[at]).name != name by {
        lemma_listed_posts_are_public(repository, at);
        let origin = choose|origin: int|
            {
                &&& 0 <= origin < repository.public.len()
                &&& metadata_of(#[trigger] repository.public[origin]) == Some(
                    listing(repository)[at],
                )
                &&& repository.public[origin].name == listing(repository)[at].name
                &&& title_of(repository.public[origin].text) == Some(
                    listing(repository)[at].title,
                )
            };
        if listing(repository)[at].name == name {
            assert(names(origin));
        }
    }
    let hidden = named(repository.unlisted, name);
    lemma_first_match(hidden);
    assert(hidden(first_match(hidden).unwrap()));
}

/// The listing is a function of the public sources alone: listing the
/// same sources again gives the same posts in the same order, whatever
/// the unlisted shelf holds.
pub proof fn lemma_listing_is_stable(first: PostRepositoryView, second: PostRepositoryView)
    requires
        first.public == second.public,
    ensures
        listing(first) == listing(second),
{
}

/// The file that holds the post `name`: in the directory of the public
/// or of the unlisted posts, under its name and the suffix of posts.
pub open spec fn post_path_of(name: Seq<char>, public: bool) -> Seq<char> {
    if public {
        PUBLIC_DIRECTORY@ + name + POST_SUFFIX@
    } else {
        UNLISTED_DIRECTORY@ + name + POST_SUFFIX@
    }
}

/// Names the file that holds the post `post_name`.
pub fn post_path(post_name: &str, public: bool) -> (path: String)
    ensures
        path@ == post_path_of(post_name@, public),
{
    let directory = if public {
        PUBLIC_DIRECTORY
    } else {
        UNLISTED_DIRECTORY
    };
    String::from_str(directory).concat(post_name).concat(POST_SUFFIX)
}

/// The identifier of the post that a file named `file_name` holds: what
/// stands before the suffix of posts, where the name ends with that
/// suffix and has at least one character before it.
pub open spec fn identifier_of(file_name: Seq<char>) -> Option<Seq<char>> {
    let stem = file_name.len() - POST_SUFFIX@.len();
    if stem > 0 && occurs_at(file_name, stem, POST_SUFFIX@) {
        Some(file_name.take(stem))
    } else {
        None
    }
}

/// Tells whether a file named `file_name` holds a post, and returns the
/// identifier of that post.
pub fn post_identifier(file_name: &str) -> (identifier: Option<String>)
    ensures
        identifier.deep_view() == identifier_of(file_name@),
{
    let chars = chars_of(file_name);
    let suffix = POST_SUFFIX.unicode_len();
    if chars.len() <= suffix {
        return None;
    }
    let stem = chars.len() - suffix;
    if word_at(&chars, stem, POST_SUFFIX) {
        assert(file_name@.take(stem as int) == file_name@.subrange(0, stem as int));
        Some(slice_string(file_name, 0, stem))
    } else {
        None
    }
}

/// A post is found again under the name of its file: the file of the
/// public post `name` lies in the directory of the public posts under a
/// name whose identifier is `name`.
pub proof fn lemma_post_file_round_trip(name: Seq<char>)
    requires
        name.len() > 0,
    ensures
        identifier_of(name + POST_SUFFIX@) == Some(name),
        post_path_of(name, true) == PUBLIC_DIRECTORY@ + (name + POST_SUFFIX@),
{
    let file_name = name + POST_SUFFIX@;
    assert(file_name.subrange(name.len() as int, file_name.len() as int) == POST_SUFFIX@);
    assert(file_name.take(name.len() as int) == name);
    assert(PUBLIC_DIRECTORY@ + name + POST_SUFFIX@ == PUBLIC_DIRECTORY@ + (name + POST_SUFFIX@));
}

} // verus!
