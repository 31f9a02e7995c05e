use lightscrape::sync_mode::{
    get_next_link, get_read_now_link, sync_step, try_get_next_link, try_get_read_now_link,
    SyncStep,
};

fn s(x: &str) -> String {
    x.to_string()
}

#[test]
fn read_now_link_with_class_before_title() {
    let html = s("<html>\n<a class=\"btn readchapterbtn\" href=\"/novel/abc/chapter-1\" title=\"Read\">Go</a>\n</html>");
    let url = s("https://www.site.com/novel/abc");
    assert_eq!(get_read_now_link(&html, &url), "https://www.site.com/novel/abc/chapter-1");
}

#[test]
fn read_now_link_with_title_before_class() {
    let html = s("<a href=\"https://www.site.com/c1\" title=\"Read Now\" class=\"btn\">");
    let url = s("https://www.site.com/novel/abc");
    assert_eq!(get_read_now_link(&html, &url), "https://www.site.com/c1 title=Read Now");
}

#[test]
fn read_now_link_needs_host() {
    let html = s("<a class=\"readchapterbtn\" href=\"/c1\" title=\"t\">");
    assert_eq!(try_get_read_now_link(&html, &s("nohost")), None);
}

#[test]
fn next_link_relative() {
    let html = s("<div>\n<a rel=\"next\" class=\"button nextchap\" href=\"/novel/abc/chapter-2\" title=\"Next\">Next</a>\n</div>");
    let url = s("https://www.site.com/novel/abc/chapter-1");
    assert_eq!(get_next_link(&html, &url), "https://www.site.com/novel/abc/chapter-2");
}

#[test]
fn next_link_javascript_means_last_chapter() {
    let html = s("<a rel=\"next\" class=\"button isDisabled\" href=\"javascript:;\" title=\"Next\">");
    let url = s("https://www.site.com/novel/abc/chapter-9");
    assert_eq!(get_next_link(&html, &url), "");
}

#[test]
fn next_link_title_first_drops_icon_markup() {
    let html = s("<a rel=\"next\" href=\"https://x.com/ch-3\"><i class=\"icon\"></i></a>");
    let url = s("https://x.com/ch-2");
    assert_eq!(get_next_link(&html, &url), "https://x.com/ch-3");
}

#[test]
fn next_link_needs_host() {
    let html = s("<a rel=\"next\" class=\"c\" href=\"/ch-3\" title=\"n\">");
    assert_eq!(try_get_next_link(&html, &s("ch-2")), None);
}

fn chapter_page(next: &str) -> String {
    format!(
        "<html><head><title>Chapter Three | Site</title></head><body>\n<div itemprop=\"description\"><p>Once upon a time.</p></div>\n<div class=\"chapternav\"><a rel=\"next\" class=\"next\" href=\"{}\" title=\"Next\">Next</a></div></body></html>",
        next
    )
}

#[test]
fn step_saves_chapter_and_follows_next_link() {
    let url = s("https://www.site.com/novel/abc/chapter-3");
    match sync_step(&url, 3, &chapter_page("/novel/abc/chapter-4")) {
        Some(SyncStep::Save { path, page, next_url, next_index }) => {
            assert_eq!(path, "./res/src/3.md");
            assert!(page.starts_with("# Chapter Three\n \n"));
            assert!(page.contains("Once upon a time."));
            assert_eq!(next_url, "https://www.site.com/novel/abc/chapter-4");
            assert_eq!(next_index, 4);
        }
        _ => panic!("expected a chapter to save"),
    }
}

#[test]
fn step_finishes_on_last_chapter() {
    let url = s("https://www.site.com/novel/abc/chapter-7");
    match sync_step(&url, 7, &chapter_page("javascript:;")) {
        Some(SyncStep::Finished { chapters }) => assert_eq!(chapters, 7),
        _ => panic!("expected the walk to finish"),
    }
}

#[test]
fn step_fails_without_host_for_relative_link() {
    let url = s("chapter-7");
    assert!(sync_step(&url, 7, &chapter_page("/chapter-8")).is_none());
}

#[test]
fn step_numbers_files_as_given() {
    let url = s("https://www.site.com/novel/abc/chapter-0");
    match sync_step(&url, -2, &chapter_page("/novel/abc/chapter-1")) {
        Some(SyncStep::Save { path, next_index, .. }) => {
            assert_eq!(path, "./res/src/-2.md");
            assert_eq!(next_index, -1);
        }
        _ => panic!("expected a chapter to save"),
    }
}

#[test]
fn step_fails_when_next_number_overflows() {
    let url = s("https://www.site.com/novel/abc/chapter-0");
    assert!(sync_step(&url, i32::MAX, &chapter_page("/novel/abc/chapter-1")).is_none());
    match sync_step(&url, i32::MAX, &chapter_page("javascript:;")) {
        Some(SyncStep::Finished { chapters }) => assert_eq!(chapters, i32::MAX),
        _ => panic!("expected the walk to finish"),
    }
}

#[test]
fn step_fails_without_chapter_section() {
    let url = s("https://www.site.com/novel/abc/chapter-3");
    let page = s("<a rel=\"next\" class=\"n\" href=\"/c4\" title=\"t\"> chapternav itemprop=\"description\"");
    assert!(sync_step(&url, 3, &page).is_none());
}

#[test]
fn next_link_ignores_other_lines() {
    let html = s("<a rel=\"next\" class=\"c\" href=\"/ch-3\" title=\"n\">");
    let url = s("https://x.com/ch-2");
    let longer = html.clone() + "\n" + "<a href=\"/other\" title=\"t\">\n<p>text</p>";
    assert_eq!(get_next_link(&longer, &url), get_next_link(&html, &url));
}
