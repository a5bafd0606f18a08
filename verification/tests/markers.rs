use blog_backend::markers::{
    extract_first_image, extract_post_timestamp, extract_post_title, to_absolute_url, SITE_ORIGIN,
};
use regex::Regex;

fn text(s: &str) -> Option<String> {
    Some(s.to_string())
}

#[test]
fn title_is_the_trimmed_rest_of_the_first_heading() {
    assert_eq!(extract_post_title("# Hello\n\nBody text"), text("Hello"));
    assert_eq!(extract_post_title("#Hello"), text("Hello"));
    assert_eq!(extract_post_title("intro\n   #  Spaced out \t\r\n# Second"), text("Spaced out"));
}

#[test]
fn title_does_not_depend_on_what_follows() {
    let head = "first line\n  # The Title  ";
    for tail in ["", "\n", "\n# Another", "\nbody\n\n## more\n<!-- timestamp: 1 -->"] {
        let whole = format!("{}{}", head, tail);
        assert_eq!(extract_post_title(&whole), text("The Title"));
    }
}

#[test]
fn title_needs_a_heading_line() {
    assert_eq!(extract_post_title(""), None);
    assert_eq!(extract_post_title("no heading here\nnor here"), None);
    assert_eq!(extract_post_title("text # not at the start"), None);
    assert_eq!(extract_post_title("\t# behind a tab"), None);
    assert_eq!(extract_post_title("#"), None);
    assert_eq!(extract_post_title("#\n"), None);
    assert_eq!(extract_post_title("  #\nbody"), None);
}

#[test]
fn title_takes_everything_behind_the_first_marker() {
    assert_eq!(extract_post_title("## Section"), text("# Section"));
    assert_eq!(extract_post_title("#   \n# Real"), text(""));
    assert_eq!(extract_post_title("#\n# Real"), text("Real"));
    assert_eq!(extract_post_title("# Grüße, 世界 \u{3000}"), text("Grüße, 世界"));
    assert_eq!(extract_post_title("a\n\n\n#x"), text("x"));
}

#[test]
fn title_is_trimmed_as_std_trims() {
    let mut code: u32 = 0;
    while code <= 0x3100 {
        if let Some(c) = char::from_u32(code) {
            let line = format!("#{}a{}", c, c);
            let expected = if c == '\n' { None } else { text("a") };
            let trimmed = if c.is_whitespace() { expected } else { Some(format!("{}a{}", c, c)) };
            assert_eq!(extract_post_title(&line), trimmed, "U+{:04X}", code);
        }
        code += 1;
    }
}

#[test]
fn thumbnail_is_the_address_of_the_first_image() {
    assert_eq!(extract_first_image("![](a.png)"), text("a.png"));
    assert_eq!(extract_first_image("x ![](http://h/1.png) y ![](2.png)"), text("http://h/1.png"));
    assert_eq!(extract_first_image("![](a b c)"), text("a b c"));
    assert_eq!(extract_first_image("![](![](x)"), text("![](x"));
}

#[test]
fn thumbnail_is_made_absolute() {
    assert_eq!(extract_first_image("x ![](/img/a.png) y"), text("https://jam1.re/img/a.png"));
    assert_eq!(extract_first_image("![](/)"), text("https://jam1.re/"));
    assert_eq!(to_absolute_url("/img/a.png"), "https://jam1.re/img/a.png");
    assert_eq!(to_absolute_url("http://x/y.png"), "http://x/y.png");
    assert_eq!(to_absolute_url("img/a.png"), "img/a.png");
    assert_eq!(to_absolute_url(""), "");
    assert_eq!(to_absolute_url("é/x"), "é/x");
    assert_eq!(SITE_ORIGIN, "https://jam1.re");
}

#[test]
fn thumbnail_needs_an_address_without_caret_line_feed_or_parenthesis() {
    assert_eq!(extract_first_image(""), None);
    assert_eq!(extract_first_image("![]()"), None);
    assert_eq!(extract_first_image("![alt](a.png)"), None);
    assert_eq!(extract_first_image("![](a^b)"), None);
    assert_eq!(extract_first_image("![](a\nb)"), None);
    assert_eq!(extract_first_image("![](unclosed"), None);
    assert_eq!(extract_first_image("![](a^b) ![](c)"), text("c"));
    assert_eq!(extract_first_image("![](a^![](b)"), text("b"));
}

#[test]
fn timestamp_directive_is_read() {
    assert_eq!(extract_post_timestamp("a <!-- timestamp: 12345 --> b"), Some(12345));
    assert_eq!(extract_post_timestamp("<!--timestamp:12345-->"), Some(12345));
    assert_eq!(extract_post_timestamp("<!--    timestamp:     12345     -->"), Some(12345));
    assert_eq!(extract_post_timestamp("<!-- timestamp : 12345 -->"), Some(12345));
    assert_eq!(extract_post_timestamp("<!-- timestamp   :12345-->"), Some(12345));
    assert_eq!(extract_post_timestamp("# T\n<!-- timestamp: 007 -->\n"), Some(7));
    assert_eq!(extract_post_timestamp("<!-- timestamp: 0 -->"), Some(0));
}

#[test]
fn timestamp_is_that_of_the_first_directive() {
    let two = "<!-- timestamp: 1 --> <!-- timestamp: 2 -->";
    assert_eq!(extract_post_timestamp(two), Some(1));
    let broken_first = "<!-- timestamp: --> <!-- timestamp: x --> <!-- timestamp: 3 -->";
    assert_eq!(extract_post_timestamp(broken_first), Some(3));
    assert_eq!(extract_post_timestamp("<!-- <!-- timestamp: 4 -->"), Some(4));
}

#[test]
fn timestamp_needs_a_directive() {
    assert_eq!(extract_post_timestamp(""), None);
    assert_eq!(extract_post_timestamp("timestamp: 5"), None);
    assert_eq!(extract_post_timestamp("<!-- timestamp: -5 -->"), None);
    assert_eq!(extract_post_timestamp("<!-- timestamp: 5 --"), None);
    assert_eq!(extract_post_timestamp("<!-- timestamp: 5 6 -->"), None);
    assert_eq!(extract_post_timestamp("<!--\ttimestamp: 5 -->"), None);
    assert_eq!(extract_post_timestamp("<!-- Timestamp: 5 -->"), None);
    assert_eq!(extract_post_timestamp("<!-- timestamp: ٣ -->"), None);
}

#[test]
fn timestamp_that_does_not_fit_is_dropped() {
    assert_eq!(
        extract_post_timestamp("<!-- timestamp: 9223372036854775807 -->"),
        Some(i64::MAX)
    );
    assert_eq!(extract_post_timestamp("<!-- timestamp: 9223372036854775808 -->"), None);
    assert_eq!(extract_post_timestamp("<!-- timestamp: 99999999999999999999999 -->"), None);
    assert_eq!(
        extract_post_timestamp("<!-- timestamp: 000000000000000000000000000042 -->"),
        Some(42)
    );
    let overflow_first = "<!-- timestamp: 9223372036854775808 --> <!-- timestamp: 1 -->";
    assert_eq!(extract_post_timestamp(overflow_first), None);
}

const SAMPLES: [&str; 16] = [
    "",
    "# Title\n\n![](/img/t.png)\n<!-- timestamp: 1625356800 -->\nBody",
    "no markers at all",
    "   #   Indented heading   \nrest",
    "text\n#\n## Second level\n",
    "![](one) ![](two)\n# late title",
    "![]()![](x)",
    "![](a^b)![](c^d)![](e)",
    "<!--timestamp:1--><!-- timestamp: 2 -->",
    "<!-- timestamp:   --> then <!--   timestamp:  77   -->",
    "<!-- timestamp: 123456789012345678901234567890 -->",
    "#\r\n# crlf title\r\nbody\r\n",
    "prefix # not a heading\n \n  \n # yes",
    "![](\n) ![](ok)\n",
    "# a\n# b\n<!-- timestamp: 5 -- > <!-- timestamp: 6-->",
    "![](/abs)\n#t",
];

#[test]
fn title_agrees_with_the_pattern() {
    let pattern = Regex::new(r"(?m)^ *#(.+)").unwrap();
    for sample in SAMPLES {
        let expected = pattern
            .captures(sample)
            .and_then(|found| found.get(1))
            .map(|rest| rest.as_str().trim().to_string());
        assert_eq!(extract_post_title(sample), expected, "{:?}", sample);
    }
}

#[test]
fn thumbnail_agrees_with_the_pattern() {
    let pattern = Regex::new(r"!\[\]\(([^\^\n)]+)\)").unwrap();
    for sample in SAMPLES {
        let expected = pattern
            .captures(sample)
            .and_then(|found| found.get(1))
            .map(|url| to_absolute_url(url.as_str()));
        assert_eq!(extract_first_image(sample), expected, "{:?}", sample);
    }
}

#[test]
fn timestamp_agrees_with_the_pattern() {
    let pattern = Regex::new(r"<!-- *timestamp *: *([0-9]+) *-->").unwrap();
    for sample in SAMPLES {
        let expected = pattern
            .captures(sample)
            .and_then(|found| found.get(1))
            .and_then(|digits| digits.as_str().parse::<i64>().ok());
        assert_eq!(extract_post_timestamp(sample), expected, "{:?}", sample);
    }
}
