use lightscrape::book::{chapter_file_path, chapter_markdown, contents_page_url, summary_lines};
use lightscrape::text::{chars_of, replace_exec, split_exec, string_of, trim_exec};

#[test]
fn chapter_files_are_numbered() {
    assert_eq!(chapter_file_path(12), "./res/src/12.md");
    assert_eq!(chapter_file_path(0), "./res/src/0.md");
    assert_eq!(chapter_file_path(u64::MAX), format!("./res/src/{}.md", u64::MAX));
}

#[test]
fn distinct_chapters_get_distinct_files() {
    assert_ne!(chapter_file_path(1), chapter_file_path(10));
    assert_ne!(chapter_file_path(11), chapter_file_path(111));
}

#[test]
fn chapter_file_holds_heading_and_text() {
    assert_eq!(chapter_markdown("Title", "Body text"), "# Title\n \nBody text");
    assert_eq!(chapter_markdown("", ""), "# \n \n");
}

#[test]
fn summary_lists_chapters_in_order() {
    assert_eq!(summary_lines(0), "");
    assert_eq!(summary_lines(2), "- [Chapter 1](./1.md)\n- [Chapter 2](./2.md)\n");
    let long = summary_lines(120);
    assert_eq!(long.lines().count(), 120);
    assert!(long.ends_with("- [Chapter 120](./120.md)\n"));
}

#[test]
fn contents_pages_are_numbered() {
    assert_eq!(
        contents_page_url("https://www.site.com/novel/abc/chapters", 2),
        "https://www.site.com/novel/abc/chapters?page=2"
    );
}

fn trim_str(x: &str) -> String {
    string_of(trim_exec(chars_of(x).as_slice()).as_slice())
}

#[test]
fn trim_agrees_with_std_on_unicode_space() {
    for x in ["\u{3000}abc\u{a0}", " \t\n x y \r\n", "", "   ", "\u{85}q\u{2029}", "\u{200b}z"] {
        assert_eq!(trim_str(x), x.trim());
    }
}

#[test]
fn trim_twice_is_trim_once() {
    let once = trim_str("  a b  ");
    assert_eq!(trim_str(&once), once);
}

#[test]
fn replace_agrees_with_std() {
    for (x, from, to) in [("aaa", "aa", "b"), ("a\"b\"c", "\"", ""), ("xyz", "q", "r"), ("abab", "ab", "ba")] {
        let r = replace_exec(chars_of(x).as_slice(), chars_of(from).as_slice(), chars_of(to).as_slice());
        assert_eq!(string_of(r.as_slice()), x.replace(from, to));
    }
}

#[test]
fn split_agrees_with_std() {
    for (x, sep) in [("a/b//c/", "/"), ("", "/"), ("https://h/p", "/"), ("a</li>b</li>", "</li>")] {
        let parts: Vec<String> = split_exec(chars_of(x).as_slice(), chars_of(sep).as_slice())
            .iter()
            .map(|p| string_of(p.as_slice()))
            .collect();
        let expected: Vec<String> = x.split(sep).map(|p| p.to_string()).collect();
        assert_eq!(parts, expected);
    }
}

#[test]
fn split_pieces_join_back_to_text() {
    for (x, sep) in [("a\nb\n\nc", "\n"), ("https://www.site.com/n", "/"), ("x", "</li>")] {
        let parts: Vec<String> = split_exec(chars_of(x).as_slice(), chars_of(sep).as_slice())
            .iter()
            .map(|p| string_of(p.as_slice()))
            .collect();
        assert_eq!(parts.join(sep), x);
    }
}
