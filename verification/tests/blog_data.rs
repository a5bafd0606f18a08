use blog_backend::blog_data::{
    describe_post, find_post, get_post, get_posts, post_identifier, post_metadata, post_path,
    post_render_options, sort_posts, PostMetadata, PostRepository, PostSource, DATE_PATTERN,
};

fn source(name: &str, text: &str) -> PostSource {
    PostSource { name: name.to_string(), text: text.to_string() }
}

fn dated(name: &str, timestamp: i64) -> PostMetadata {
    PostMetadata {
        name: name.to_string(),
        title: name.to_uppercase(),
        thumbnail: String::new(),
        date: String::new(),
        timestamp,
    }
}

fn names(posts: &[PostMetadata]) -> Vec<String> {
    posts.iter().map(|post| post.name.clone()).collect()
}

fn timestamps(posts: &[PostMetadata]) -> Vec<i64> {
    posts.iter().map(|post| post.timestamp).collect()
}

#[test]
fn metadata_of_a_post_with_all_markers() {
    let text = "# A Post\n\n![](/img/a.png)\n<!-- timestamp: 1625356800 -->\n\nBody";
    let metadata = post_metadata(&source("a-post", text)).unwrap();
    assert_eq!(metadata.name, "a-post");
    assert_eq!(metadata.title, "A Post");
    assert_eq!(metadata.thumbnail, "https://jam1.re/img/a.png");
    assert_eq!(metadata.timestamp, 1625356800);
    assert_eq!(metadata.date, "04 July 2021");
}

#[test]
fn metadata_defaults_thumbnail_and_timestamp() {
    let metadata = post_metadata(&source("hello", "# Hello\n\nBody text")).unwrap();
    assert_eq!(metadata.name, "hello");
    assert_eq!(metadata.title, "Hello");
    assert_eq!(metadata.thumbnail, "");
    assert_eq!(metadata.timestamp, 0);
    assert_eq!(metadata.date, "01 January 1970");
}

#[test]
fn metadata_needs_a_title() {
    let text = "![](/img/a.png)\n<!-- timestamp: 5 -->\nno heading";
    assert!(post_metadata(&source("untitled", text)).is_none());
    assert!(describe_post(&source("untitled", text), Some("today".to_string())).is_none());
}

#[test]
fn metadata_dates_are_utc_calendar_dates() {
    let cases = [
        (86399, "01 January 1970"),
        (86400, "02 January 1970"),
        (951782400, "29 February 2000"),
        (1609459199, "31 December 2020"),
        (1609459200, "01 January 2021"),
        (253402300799, "31 December 9999"),
    ];
    for (timestamp, date) in cases {
        let text = format!("# T\n<!-- timestamp: {} -->", timestamp);
        let metadata = post_metadata(&source("t", &text)).unwrap();
        assert_eq!(metadata.timestamp, timestamp);
        assert_eq!(metadata.date, date);
    }
    assert_eq!(DATE_PATTERN, "%d %B %Y");
}

#[test]
fn metadata_of_a_timestamp_without_a_date_is_dropped() {
    let text = format!("# Far away\n<!-- timestamp: {} -->", i64::MAX);
    assert!(post_metadata(&source("far", &text)).is_none());
}

#[test]
fn metadata_with_an_overflowing_timestamp_falls_back_to_zero() {
    let text = "# Big\n<!-- timestamp: 92233720368547758070 -->";
    let metadata = post_metadata(&source("big", text)).unwrap();
    assert_eq!(metadata.timestamp, 0);
    assert_eq!(metadata.date, "01 January 1970");
}

#[test]
fn describe_post_takes_the_date_as_given() {
    let text = "intro\n# Title \n![](pic.png)<!--timestamp:9-->";
    let metadata = describe_post(&source("n", text), Some("some day".to_string())).unwrap();
    assert_eq!(metadata.name, "n");
    assert_eq!(metadata.title, "Title");
    assert_eq!(metadata.thumbnail, "pic.png");
    assert_eq!(metadata.timestamp, 9);
    assert_eq!(metadata.date, "some day");
    assert!(describe_post(&source("n", text), None).is_none());
}

#[test]
fn posts_are_sorted_newest_first() {
    let sorted = sort_posts(vec![dated("a", 100), dated("b", 50), dated("c", 200)]);
    assert_eq!(timestamps(&sorted), vec![200, 100, 50]);
    assert_eq!(names(&sorted), vec!["c", "a", "b"]);
}

#[test]
fn sorting_keeps_every_post() {
    let sorted = sort_posts(vec![
        dated("a", 3),
        dated("b", -7),
        dated("c", 3),
        dated("d", i64::MAX),
        dated("e", i64::MIN),
        dated("f", 0),
    ]);
    assert_eq!(timestamps(&sorted), vec![i64::MAX, 3, 3, 0, -7, i64::MIN]);
    let mut seen = names(&sorted);
    seen.sort();
    assert_eq!(seen, vec!["a", "b", "c", "d", "e", "f"]);
    assert!(sort_posts(Vec::new()).is_empty());
}

#[test]
fn posts_of_one_timestamp_come_out_later_first() {
    let sorted = sort_posts(vec![dated("a", 5), dated("b", 5), dated("c", 9), dated("d", 5)]);
    assert_eq!(names(&sorted), vec!["c", "d", "b", "a"]);
}

#[test]
fn sorting_agrees_with_stable_sort_and_reverse() {
    let stamps = [4, 1, 4, 4, 0, 9, 1, -3, 9, 2, 2, 2];
    let posts: Vec<PostMetadata> =
        stamps.iter().enumerate().map(|(at, stamp)| dated(&format!("p{}", at), *stamp)).collect();
    let mut expected: Vec<(i64, String)> =
        posts.iter().map(|post| (post.timestamp, post.name.clone())).collect();
    expected.sort_by_key(|pair| pair.0);
    expected.reverse();
    let sorted = sort_posts(posts);
    let got: Vec<(i64, String)> =
        sorted.iter().map(|post| (post.timestamp, post.name.clone())).collect();
    assert_eq!(got, expected);
}

fn repository() -> PostRepository {
    PostRepository {
        public: vec![
            source("first", "# First\n<!-- timestamp: 100 -->"),
            source("draft", "no heading in here\n<!-- timestamp: 999 -->"),
            source("second", "# Second\n<!-- timestamp: 50 -->"),
            source("third", "# Third\n<!-- timestamp: 200 -->\n![](/t.png)"),
        ],
        unlisted: vec![
            source("secret", "# Secret\n<!-- timestamp: 150 -->\n~~gone~~"),
            source("blank", "nothing"),
        ],
    }
}

#[test]
fn listing_orders_the_public_posts() {
    let posts = get_posts(&repository());
    assert_eq!(timestamps(&posts), vec![200, 100, 50]);
    assert_eq!(names(&posts), vec!["third", "first", "second"]);
    assert_eq!(posts[0].title, "Third");
    assert_eq!(posts[0].thumbnail, "https://jam1.re/t.png");
    assert_eq!(posts[0].date, "01 January 1970");
}

#[test]
fn listing_leaves_out_posts_without_a_title() {
    let posts = get_posts(&repository());
    assert!(posts.iter().all(|post| post.name != "draft"));
    assert!(get_post(&repository(), "draft", true).is_none());
    assert!(get_post(&repository(), "blank", false).is_none());
}

#[test]
fn listing_leaves_out_unlisted_posts() {
    let posts = get_posts(&repository());
    assert!(posts.iter().all(|post| post.name != "secret"));
    assert!(get_post(&repository(), "secret", true).is_none());
    let record = get_post(&repository(), "secret", false).unwrap();
    assert_eq!(record.metadata.name, "secret");
    assert_eq!(record.metadata.title, "Secret");
    assert_eq!(record.metadata.timestamp, 150);
    assert!(record.body.contains("<del>gone</del>"));
}

#[test]
fn listing_twice_gives_the_same() {
    let repository = repository();
    let first = get_posts(&repository);
    let second = get_posts(&repository);
    assert_eq!(first, second);
}

#[test]
fn listing_of_nothing_is_empty() {
    let empty = PostRepository { public: Vec::new(), unlisted: repository().unlisted };
    assert!(get_posts(&empty).is_empty());
}

#[test]
fn lookup_returns_the_whole_post() {
    let repository = PostRepository {
        public: vec![source("hello", "# Hello\n\nBody text")],
        unlisted: Vec::new(),
    };
    let record = get_post(&repository, "hello", true).unwrap();
    assert_eq!(record.metadata.name, "hello");
    assert_eq!(record.metadata.title, "Hello");
    assert_eq!(record.metadata.thumbnail, "");
    assert_eq!(record.metadata.timestamp, 0);
    assert_eq!(record.metadata.date, "01 January 1970");
    assert_eq!(record.body, "<h1>Hello</h1>\n<p>Body text</p>\n");
    assert!(get_post(&repository, "hello", false).is_none());
    assert!(get_post(&repository, "Hello", true).is_none());
    assert!(get_post(&repository, "", true).is_none());
}

#[test]
fn lookup_renders_with_the_extensions() {
    let text = "# T\n\n<b>raw</b> ~~old~~ www.example.com[^1]\n\n| a | b |\n|---|---|\n| c | d |\n\n``` rust\nfn f() {}\n```\n\n<xmp>\n\n[^1]: note\n";
    let repository = PostRepository { public: vec![source("t", text)], unlisted: Vec::new() };
    let body = get_post(&repository, "t", true).unwrap().body;
    assert!(body.contains("<b>raw</b>"));
    assert!(body.contains("<del>old</del>"));
    assert!(body.contains("<a href=\"http://www.example.com\">www.example.com</a>"));
    assert!(body.contains("<table>"));
    assert!(body.contains("<pre lang=\"rust\"><code>"));
    assert!(body.contains("<xmp>"));
    assert!(body.contains("class=\"footnotes\""));
}

#[test]
fn render_options_of_posts() {
    let options = post_render_options();
    assert!(options.autolink && options.strikethrough && options.table && options.footnotes);
    assert!(options.raw_html && options.github_pre_lang);
    assert!(!options.tagfilter);
}

#[test]
fn find_post_returns_the_first_of_a_name() {
    let sources = vec![source("a", "1"), source("b", "2"), source("a", "3")];
    assert_eq!(find_post(&sources, "a"), Some(0));
    assert_eq!(find_post(&sources, "b"), Some(1));
    assert_eq!(find_post(&sources, "c"), None);
    assert_eq!(find_post(&Vec::new(), "a"), None);
}

#[test]
fn post_paths() {
    assert_eq!(post_path("hello", true), "posts/hello.md");
    assert_eq!(post_path("hello", false), "private/hello.md");
    assert_eq!(post_path("", true), "posts/.md");
}

#[test]
fn post_identifiers() {
    assert_eq!(post_identifier("hello.md"), Some("hello".to_string()));
    assert_eq!(post_identifier("a.b.md"), Some("a.b".to_string()));
    assert_eq!(post_identifier("ü.md"), Some("ü".to_string()));
    assert_eq!(post_identifier(".md"), None);
    assert_eq!(post_identifier("md"), None);
    assert_eq!(post_identifier(""), None);
    assert_eq!(post_identifier("hello.MD"), None);
    assert_eq!(post_identifier("hello.md.bak"), None);
    assert_eq!(post_identifier("hellomd"), None);
}
