use lightscrape::utils::{
    get_cover_url, get_substring_between, get_title, parse_content, tidy_chapter_markdown,
    try_parse_content,
};

#[test]
fn between_takes_text_after_first_start_and_before_next_end() {
    assert_eq!(
        get_substring_between("hello <b>world</b> and <b>more</b>", "<b>", "</b>"),
        Some("world")
    );
}

#[test]
fn between_returns_whole_text_when_start_missing() {
    assert_eq!(get_substring_between("no markers here", "<b>", "here"), Some("no markers here"));
}

#[test]
fn between_returns_whole_text_when_end_missing() {
    assert_eq!(get_substring_between("a <b>bold", "<b>", "</b>"), Some("a <b>bold"));
}

#[test]
fn between_is_none_when_end_only_precedes_start() {
    assert_eq!(get_substring_between("x</b> then <b>y", "<b>", "</b>"), None);
}

#[test]
fn between_can_be_empty() {
    assert_eq!(get_substring_between("<b></b>", "<b>", "</b>"), Some(""));
}

#[test]
fn between_counts_characters_not_bytes() {
    assert_eq!(get_substring_between("été<i>ça</i>", "<i>", "</i>"), Some("ça"));
}

#[test]
fn title_is_cut_at_bar_and_trimmed() {
    let html = "<html><head><title>  My Novel | Web Site </title></head></html>".to_string();
    assert_eq!(get_title(&html), "My Novel");
}

#[test]
fn title_decodes_apostrophes_and_drops_site_names() {
    let html = "<title>Lord&#x27;s Tale &#x2019;s - Top Novel Updates</title>".to_string();
    assert_eq!(get_title(&html), "Lord's Tale 's");
    let html = "<title>Another Story - Web Novel Pub</title>".to_string();
    assert_eq!(get_title(&html), "Another Story");
}

#[test]
fn title_without_tag_uses_whole_page() {
    let html = "  plain text page \n".to_string();
    assert_eq!(get_title(&html), "plain text page");
}

#[test]
fn title_without_tag_keeps_only_text_before_bar() {
    let html = "left|right".to_string();
    assert_eq!(get_title(&html), "left");
}

#[test]
fn cover_url_is_read_from_figure() {
    let html = "<div><figure class=\"cover\"><img data-src=\"https://img.example.com/c.jpg\" alt=\"cover\"></figure></div>";
    assert_eq!(get_cover_url(html), "https://img.example.com/c.jpg");
}

#[test]
fn cover_url_without_figure_searches_whole_page() {
    let html = "<img data-src= \"https://img.example.com/d.png\"  alt=\"x\">";
    assert_eq!(get_cover_url(html), "https://img.example.com/d.png");
}

#[test]
fn tidy_markdown_strips_quote_marks_and_notice() {
    let md = "  \\>\\> Hello *This chapter upload first at **Novel Fire*** world \n";
    assert_eq!(tidy_chapter_markdown(md), "Hello  world");
}

#[test]
fn tidy_markdown_keeps_inner_quote_marks() {
    assert_eq!(tidy_chapter_markdown("a \\> b"), "a \\> b");
}

#[test]
fn content_drops_scripts_and_markup() {
    let html = "<html><div itemprop=\"description\"><p>Hello world</p><script>track(1)</script><p>Second line</p></div><div class=\"chapternav\"></div></html>";
    let content = parse_content(html);
    assert!(content.contains("Hello world"));
    assert!(content.contains("Second line"));
    assert!(!content.contains("track(1)"));
    assert!(!content.contains("<p>"));
    assert!(!content.starts_with("\\>"));
    assert_eq!(content, content.trim());
}

#[test]
fn content_keeps_script_split_across_lines() {
    let html = "<div itemprop=\"description\"><p>Text</p><script>\nvar shown = 1;\n</script></div>chapternav";
    let content = try_parse_content(html).unwrap();
    assert!(content.contains("Text"));
}

#[test]
fn content_is_none_when_section_never_closes() {
    let html = "<div class=\"chapternav\"></div><div itemprop=\"description\">lost</div>";
    assert_eq!(try_parse_content(html), None);
}

#[test]
fn content_of_page_without_markers_uses_whole_page() {
    let html = "<p>Only paragraph</p>";
    let content = try_parse_content(html).unwrap();
    assert!(content.contains("Only paragraph"));
    assert!(!content.contains("<p>"));
}

#[test]
fn title_ignores_text_after_title_element() {
    let html = "<title>First | Site</title>".to_string();
    let longer = html.clone() + "<title>Second</title> | trailing";
    assert_eq!(get_title(&longer), get_title(&html));
}
