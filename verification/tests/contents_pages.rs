use lightscrape::async_mode::{
    get_all_page_links,
    get_contents_link, get_page_links, is_last_contents_page, is_server_busy,
    try_get_contents_link, try_get_page_links, Chapter,
};

fn fields(c: &Chapter) -> (&str, &str, &str) {
    (c.title.as_str(), c.link.as_str(), c.index.as_str())
}

#[test]
fn contents_link_relative_gets_host_of_page() {
    let html = "<html>\n<div class=\"chapter-latest-container\"><a href=\"/novel/abc/chapters\">All</a>\n</html>";
    assert_eq!(
        get_contents_link(html, "https://www.site.com/novel/abc"),
        "https://www.site.com/novel/abc/chapters"
    );
}

#[test]
fn contents_link_absolute_is_kept() {
    let html = "<a class=\"chapter-latest-container\" href=\"https://other.com/toc \">x</a>";
    assert_eq!(get_contents_link(html, "https://www.site.com/n"), "https://other.com/toc");
}

#[test]
fn contents_link_without_box_uses_nothing() {
    let html = "<html>no box</html>";
    assert_eq!(get_contents_link(html, "https://www.site.com/n"), "https://www.site.com");
}

#[test]
fn contents_link_needs_host_for_relative_link() {
    let html = "<div class=\"chapter-latest-container\"><a href=\"/toc\">";
    assert_eq!(try_get_contents_link(html, "site.com"), None);
    assert_eq!(
        try_get_contents_link(html, "http://site.com/x"),
        Some("https://site.com/toc".to_string())
    );
}

fn list_page() -> String {
    [
        "<html><body>\n",
        "<ul class=\"chapter-list\">\n",
        "<li data-chapterno=\"1\"><a href=\"/novel/abc/chapter-1\" title=\"Chapter 1: Start\"><span class=\"chapter-no\" data-orderno=\"1\">1</span></a></li>\n",
        "<li><a href=\"https://x.com/c2\" title=\"Chapter 2: Lord&#x2019;s Walk\">Chapter 2: Lord&#x2019;s Walk</a></li>\n",
        "<li><a href=\"/novel/abc/epilogue\" title=\"Epilogue\">Epilogue</a></li>\n",
        "</ul>\n</body></html>",
    ]
    .join("")
}

#[test]
fn page_links_reads_every_listed_chapter() {
    let url = "https://www.site.com/novel/abc/chapters".to_string();
    let chapters = get_page_links(&url, &list_page());
    assert_eq!(chapters.len(), 3);
    assert_eq!(
        fields(&chapters[0]),
        ("Chapter 1: Start", "https://www.site.com/novel/abc/chapter-1", "1")
    );
    assert_eq!(fields(&chapters[1]), ("Chapter 2: Lord's Walk", "https://x.com/c2", "2"));
    assert_eq!(
        fields(&chapters[2]),
        ("Epilogue", "https://www.site.com/novel/abc/epilogue", "")
    );
}

#[test]
fn page_links_of_empty_list() {
    let url = "https://www.site.com/novel/abc/chapters".to_string();
    let body = "<ul class=\"chapter-list\"></ul>".to_string();
    assert_eq!(get_page_links(&url, &body).len(), 0);
}

#[test]
fn page_links_fail_when_href_has_no_following_title() {
    let url = "https://www.site.com/n".to_string();
    let body = "<ul class=\"chapter-list\"><li>title first href=x</li></ul>".to_string();
    assert!(try_get_page_links(&url, &body).is_none());
}

#[test]
fn page_links_fail_when_list_never_closes() {
    let url = "https://www.site.com/n".to_string();
    let body = "</ul><ul class=\"chapter-list\"><li>x</li>".to_string();
    assert!(try_get_page_links(&url, &body).is_none());
}

#[test]
fn page_links_fail_for_relative_links_without_host() {
    let url = "chapters".to_string();
    let body = "<ul class=\"chapter-list\"><li><a href=\"/c1\" title=\"One\">One</a></li></ul>".to_string();
    assert!(try_get_page_links(&url, &body).is_none());
}

#[test]
fn busy_page_is_recognised() {
    assert!(is_server_busy("Sorry. All of our servers are busy right now, retry."));
    assert!(!is_server_busy("Chapter text"));
}

#[test]
fn not_found_page_is_last() {
    assert!(is_last_contents_page("<h1>Page Not Found</h1> class=\"chapter-list\">lots of chapters here</ul>"));
}

#[test]
fn short_list_is_last() {
    assert!(is_last_contents_page("<ul class=\"chapter-list\"> </ul>"));
}

#[test]
fn long_list_is_not_last() {
    assert!(!is_last_contents_page("<ul class=\"chapter-list\"><li>1</li></ul>"));
}

#[test]
fn list_length_counts_utf8_bytes() {
    assert!(!is_last_contents_page("class=\"chapter-listééééé\"</ul>"));
    assert!(is_last_contents_page("class=\"chapter-listaaaa\"</ul>"));
}

#[test]
fn page_without_list_marker_is_measured_whole() {
    assert!(!is_last_contents_page("a page with no list at all"));
    assert!(is_last_contents_page("tiny"));
}

#[test]
fn all_pages_are_listed_in_order() {
    let url = "https://www.site.com/novel/abc/chapters".to_string();
    let second = "<ul class=\"chapter-list\"><li><a href=\"/c4\" title=\"Four\">x</a></li></ul>".to_string();
    let chapters = get_all_page_links(&url, &vec![list_page(), second]).unwrap();
    assert_eq!(chapters.len(), 4);
    assert_eq!(fields(&chapters[3]), ("Four", "https://www.site.com/c4", ""));
    assert_eq!(chapters[0].title, "Chapter 1: Start");
    assert_eq!(get_all_page_links(&url, &vec![]).unwrap().len(), 0);
}

#[test]
fn all_pages_fail_when_one_page_fails() {
    let url = "https://www.site.com/n".to_string();
    let bad = "</ul><ul class=\"chapter-list\"><li>x</li>".to_string();
    assert!(get_all_page_links(&url, &vec![list_page(), bad]).is_none());
}

#[test]
fn contents_link_ignores_other_lines() {
    let html = "<div class=\"chapter-latest-container\"><a href=\"/toc\">";
    let url = "https://www.site.com/n";
    let longer = format!("{}\n{}", html, "<a href=\"/elsewhere\">\nmore text");
    assert_eq!(get_contents_link(&longer, url), get_contents_link(html, url));
}
