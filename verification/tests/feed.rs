use blog_backend::blog_data::{PostMetadata, PostRepository, PostSource};
use blog_backend::feed::{build_feed, post_link, rss_feed, FEED_DESCRIPTION, FEED_TITLE};

fn post(name: &str, title: &str, date: &str) -> PostMetadata {
    PostMetadata {
        name: name.to_string(),
        title: title.to_string(),
        thumbnail: String::new(),
        date: date.to_string(),
        timestamp: 0,
    }
}

#[test]
fn feed_of_no_posts_has_no_entries() {
    let feed = build_feed(&Vec::new());
    assert_eq!(feed.title, "jam1garner");
    assert_eq!(feed.link, "https://jam1.re");
    assert_eq!(feed.description, "Writeups, Hacking, and Hacky Software");
    assert!(feed.entries.is_empty());
    assert_eq!(FEED_TITLE, "jam1garner");
    assert_eq!(FEED_DESCRIPTION, "Writeups, Hacking, and Hacky Software");
}

#[test]
fn feed_has_one_entry_for_each_post() {
    let posts = vec![post("b", "Second", "02 January 2021"), post("a", "First", "01 January 2021")];
    let feed = build_feed(&posts);
    assert_eq!(feed.entries.len(), 2);
    assert_eq!(feed.entries[0].title, "Second");
    assert_eq!(feed.entries[0].link, "https://jam1.re/blog/b");
    assert_eq!(feed.entries[0].guid, "https://jam1.re/blog/b");
    assert!(!feed.entries[0].permalink);
    assert_eq!(feed.entries[0].published, "02 January 2021");
    assert_eq!(feed.entries[1].title, "First");
    assert_eq!(feed.entries[1].link, "https://jam1.re/blog/a");
    assert_eq!(post_link("x y"), "https://jam1.re/blog/x y");
}

#[test]
fn document_of_no_posts_is_a_channel_without_items() {
    let empty = PostRepository { public: Vec::new(), unlisted: Vec::new() };
    let xml = rss_feed(&empty).unwrap();
    assert!(xml.contains("<rss"));
    assert!(xml.contains("<channel>"));
    assert!(xml.contains("<title>jam1garner</title>"));
    assert!(xml.contains("<link>https://jam1.re</link>"));
    assert!(xml.contains("<description>Writeups, Hacking, and Hacky Software</description>"));
    assert!(!xml.contains("<item>"));
}

#[test]
fn document_lists_the_public_posts_newest_first() {
    let repository = PostRepository {
        public: vec![
            PostSource {
                name: "old".to_string(),
                text: "# Old & gone\n<!-- timestamp: 86400 -->".to_string(),
            },
            PostSource {
                name: "new".to_string(),
                text: "# New\n<!-- timestamp: 1625356800 -->".to_string(),
            },
            PostSource { name: "none".to_string(), text: "untitled".to_string() },
        ],
        unlisted: vec![PostSource { name: "hidden".to_string(), text: "# Hidden".to_string() }],
    };
    let xml = rss_feed(&repository).unwrap();
    let new = "<item><title>New</title><link>https://jam1.re/blog/new</link><guid isPermaLink=\"false\">https://jam1.re/blog/new</guid><pubDate>04 July 2021</pubDate></item>";
    let old = "<item><title>Old &amp; gone</title><link>https://jam1.re/blog/old</link><guid isPermaLink=\"false\">https://jam1.re/blog/old</guid><pubDate>02 January 1970</pubDate></item>";
    let new_at = xml.find(new).unwrap();
    let old_at = xml.find(old).unwrap();
    assert!(new_at < old_at);
    assert_eq!(xml.matches("<item>").count(), 2);
    assert!(!xml.contains("hidden"));
    assert!(!xml.contains("Hidden"));
    assert!(!xml.contains("none"));
}
