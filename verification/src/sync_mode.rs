//! Reading a novel chapter by chapter: the "Read Now" link on the main page,
//! the "next" link on each chapter page, and the decision taken on each
//! downloaded chapter.

use vstd::prelude::*;

use crate::book::{chapter_file, chapter_file_path_i32, chapter_markdown, chapter_page};
use crate::links::{
    absolute_link, absolute_link_exec, lemma_absolute_link_defined, lemma_absolute_link_is_https,
};
use crate::text::{
    agree_from, between_or_empty, between_or_empty_exec, between_panics, chars_of, contains,
    contains_exec, find, find_from_exec, lemma_between_safe, lemma_lines_mentioning_append,
    lemma_lines_mentioning_single_line, lemma_no_overlap, lines_mentioning, lines_mentioning_exec,
    no_overlap_from, replace, replace_exec, split, starts_with, starts_with_exec, string_of,
};
use crate::utils::{
    content_of, content_section, converts_to_markdown, get_title, title_of, try_parse_content,
};

verus! {

/// `a < b` for two search results, as `Option`'s order has it: no result
/// comes before any result.
pub open spec fn found_earlier(a: Option<int>, b: Option<int>) -> bool {
    match (a, b) {
        (None, Some(_)) => true,
        (Some(x), Some(y)) => x < y,
        _ => false,
    }
}

fn found_earlier_exec(a: Option<usize>, b: Option<usize>) -> (r: bool)
    ensures
        r == found_earlier(
            match a {
                Some(x) => Some(x as int),
                None => None,
            },
            match b {
                Some(y) => Some(y as int),
                None => None,
            },
        ),
{
    match (a, b) {
        (None, Some(_)) => true,
        (Some(x), Some(y)) => x < y,
        _ => false,
    }
}

proof fn lemma_link_markers(line: Seq<char>)
    ensures
        !between_panics(line, "href="@, "class"@),
        !between_panics(line, "href="@, "title"@),
{
    reveal_strlit("href=");
    reveal_strlit("class");
    reveal_strlit("title");
    reveal_with_fuel(no_overlap_from, 7);
    reveal_with_fuel(agree_from, 2);
    lemma_no_overlap("href="@, "class"@);
    lemma_between_safe(line, "href="@, "class"@);
    lemma_no_overlap("href="@, "title"@);
    lemma_between_safe(line, "href="@, "title"@);
}

/// The `href=` value of a link line, ending at `class` where the line names
/// its `title` before its `class` and at `title` otherwise.
pub open spec fn href_value(line: Seq<char>) -> Seq<char> {
    if found_earlier(find(line, "title"@), find(line, "class"@)) {
        between_or_empty(line, "href="@, "class"@)
    } else {
        between_or_empty(line, "href="@, "title"@)
    }
}

/// A link line without `class` has its `href=` value cut at `title`.
pub proof fn lemma_href_without_class(line: Seq<char>)
    requires
        !contains(line, "class"@),
    ensures
        href_value(line) == between_or_empty(line, "href="@, "title"@),
{
}

/// A link line naming its `title` before its `class` has its `href=` value
/// cut at `class`.
pub proof fn lemma_href_title_before_class(line: Seq<char>)
    requires
        find(line, "title"@) matches Some(a) && find(line, "class"@) matches Some(b) && a < b,
    ensures
        href_value(line) == between_or_empty(line, "href="@, "class"@),
{
}

/// A link line with `class` but no `title` has its `href=` value cut at
/// `class`; one naming its `class` first has it cut at `title`.
pub proof fn lemma_href_class_cases(line: Seq<char>)
    requires
        contains(line, "class"@),
    ensures
        !contains(line, "title"@) ==> href_value(line) == between_or_empty(line, "href="@, "class"@),
        (find(line, "title"@) matches Some(a) && a > find(line, "class"@)->0) ==> href_value(line)
            == between_or_empty(line, "href="@, "title"@),
{
}

fn href_value_exec(line: &[char]) -> (v: Vec<char>)
    ensures
        v@ == href_value(line@),
{
    proof {
        lemma_link_markers(line@);
    }
    let title = chars_of("title");
    let class = chars_of("class");
    let href = chars_of("href=");
    if found_earlier_exec(
        find_from_exec(line, title.as_slice(), 0),
        find_from_exec(line, class.as_slice(), 0),
    ) {
        between_or_empty_exec(line, href.as_slice(), class.as_slice())
    } else {
        between_or_empty_exec(line, href.as_slice(), title.as_slice())
    }
}

/// The `href` of the "Read Now" button on a novel's main page: the lines
/// holding `readchapterbtn` or `Read Now`, joined; their `href_value`
/// without double quotes.
pub open spec fn read_now_href(html: Seq<char>) -> Seq<char> {
    replace(href_value(lines_mentioning(html, "readchapterbtn"@, "Read Now"@)), "\""@, ""@)
}

/// The address of a novel's first chapter, read from its main page at
/// `url`; `None` where the `href` is relative and `url` has no host.
pub open spec fn read_now_link(html: Seq<char>, url: Seq<char>) -> Option<Seq<char>> {
    absolute_link(read_now_href(html), url)
}

/// Pages whose address starts with `https://` always yield their "Read Now"
/// and "next" links: the chapter-by-chapter walk never stops on a link.
pub proof fn lemma_links_defined(html: Seq<char>, url: Seq<char>)
    requires
        starts_with(url, "https://"@),
    ensures
        read_now_link(html, url) is Some,
        next_link(html, url) is Some,
{
    lemma_absolute_link_defined(read_now_href(html), url);
    lemma_absolute_link_defined(next_href(html), url);
}

/// The address of a novel's first chapter, or `None` where the button's
/// link is relative and `url` has no host to put before it.
pub fn try_get_read_now_link(html: &String, url: &String) -> (r: Option<String>)
    ensures
        match r {
            Some(link) => read_now_link(html@, url@) == Some(link@),
            None => read_now_link(html@, url@) is None,
        },
{
    proof {
        reveal_strlit("\"");
    }
    let h = chars_of(html.as_str());
    let line = lines_mentioning_exec(
        h.as_slice(),
        chars_of("readchapterbtn").as_slice(),
        chars_of("Read Now").as_slice(),
    );
    let value = href_value_exec(line.as_slice());
    let href = replace_exec(value.as_slice(), chars_of("\"").as_slice(), chars_of("").as_slice());
    match absolute_link_exec(href.as_slice(), chars_of(url.as_str()).as_slice()) {
        Some(link) => Some(string_of(link.as_slice())),
        None => None,
    }
}

/// The address of a novel's first chapter, read from the "Read Now" button
/// of its main page at `url`.
pub fn get_read_now_link(html: &String, url: &String) -> (link: String)
    requires
        read_now_link(html@, url@) is Some,
    ensures
        read_now_link(html@, url@) == Some(link@),
        starts_with(link@, "https://"@),
{
    proof {
        lemma_absolute_link_is_https(read_now_href(html@), url@);
    }
    match try_get_read_now_link(html, url) {
        Some(link) => link,
        None => String::new(),
    }
}

/// The `href` of the "next chapter" link on a chapter page: the lines
/// holding `rel="next"`, joined; their `href_value` without double quotes,
/// and, where it ends at `class`, without `><i`.
pub open spec fn next_href(html: Seq<char>) -> Seq<char> {
    let line = lines_mentioning(html, "rel=\"next\""@, "rel=\"next\""@);
    let value = replace(href_value(line), "\""@, ""@);
    if found_earlier(find(line, "title"@), find(line, "class"@)) {
        replace(value, "><i"@, ""@)
    } else {
        value
    }
}

/// The address of the next chapter, read from a chapter page at `url`: the
/// empty text where the link is a relative `javascript` one (the last
/// chapter), else the link made absolute; `None` where it is relative and
/// `url` has no host.
pub open spec fn next_link(html: Seq<char>, url: Seq<char>) -> Option<Seq<char>> {
    let href = next_href(html);
    if !starts_with(href, "https://"@) && contains(href, "javascript"@) {
        Some(Seq::empty())
    } else {
        absolute_link(href, url)
    }
}

/// Only the lines holding `rel="next"` are read: appending a line break and
/// lines without it does not change the next link.
pub proof fn lemma_next_link_ignores_other_lines(html: Seq<char>, extra: Seq<char>, url: Seq<char>)
    requires
        forall|k: int|
            0 <= k < split(extra, seq!['\n']).len() ==> !contains(
                #[trigger] split(extra, seq!['\n'])[k],
                "rel=\"next\""@,
            ),
    ensures
        next_link(html + seq!['\n'] + extra, url) == next_link(html, url),
{
    lemma_lines_mentioning_append(html, extra, "rel=\"next\""@, "rel=\"next\""@);
}

/// Only the lines holding `readchapterbtn` or `Read Now` are read:
/// appending a line break and lines with neither does not change the
/// "Read Now" link.
pub proof fn lemma_read_now_link_ignores_other_lines(html: Seq<char>, extra: Seq<char>, url: Seq<char>)
    requires
        forall|k: int|
            0 <= k < split(extra, seq!['\n']).len() ==> !contains(
                #[trigger] split(extra, seq!['\n'])[k],
                "readchapterbtn"@,
            ) && !contains(split(extra, seq!['\n'])[k], "Read Now"@),
    ensures
        read_now_link(html + seq!['\n'] + extra, url) == read_now_link(html, url),
{
    lemma_lines_mentioning_append(html, extra, "readchapterbtn"@, "Read Now"@);
}

/// On a one-line page holding `rel="next"` and no `class`, the next link's
/// `href` is the unquoted `href=` value up to `title`.
pub proof fn lemma_next_href_without_class(html: Seq<char>)
    requires
        !html.contains('\n'),
        contains(html, "rel=\"next\""@),
        !contains(html, "class"@),
    ensures
        next_href(html) == replace(between_or_empty(html, "href="@, "title"@), "\""@, ""@),
{
    lemma_lines_mentioning_single_line(html, "rel=\"next\""@, "rel=\"next\""@);
}

/// The address of the next chapter (empty after the last one), or `None`
/// where the link is relative and `url` has no host to put before it.
pub fn try_get_next_link(html: &String, url: &String) -> (r: Option<String>)
    ensures
        match r {
            Some(link) => next_link(html@, url@) == Some(link@),
            None => next_link(html@, url@) is None,
        },
{
    proof {
        reveal_strlit("\"");
        reveal_strlit("><i");
    }
    let h = chars_of(html.as_str());
    let key = chars_of("rel=\"next\"");
    let line = lines_mentioning_exec(h.as_slice(), key.as_slice(), key.as_slice());
    let value = href_value_exec(line.as_slice());
    let unquoted = replace_exec(value.as_slice(), chars_of("\"").as_slice(), chars_of("").as_slice());
    let href = if found_earlier_exec(
        find_from_exec(line.as_slice(), chars_of("title").as_slice(), 0),
        find_from_exec(line.as_slice(), chars_of("class").as_slice(), 0),
    ) {
        replace_exec(unquoted.as_slice(), chars_of("><i").as_slice(), chars_of("").as_slice())
    } else {
        unquoted
    };
    if !starts_with_exec(href.as_slice(), chars_of("https://").as_slice()) && contains_exec(
        href.as_slice(),
        chars_of("javascript").as_slice(),
    ) {
        return Some(String::new());
    }
    match absolute_link_exec(href.as_slice(), chars_of(url.as_str()).as_slice()) {
        Some(link) => Some(string_of(link.as_slice())),
        None => None,
    }
}

/// The address of the next chapter, read from the `rel="next"` link of a
/// chapter page at `url`: empty after the last chapter, else an `https://`
/// address.
pub fn get_next_link(html: &String, url: &String) -> (link: String)
    requires
        next_link(html@, url@) is Some,
    ensures
        next_link(html@, url@) == Some(link@),
        link@.len() == 0 || starts_with(link@, "https://"@),
{
    proof {
        let href = next_href(html@);
        if !(!starts_with(href, "https://"@) && contains(href, "javascript"@)) {
            lemma_absolute_link_is_https(href, url@);
        }
    }
    match try_get_next_link(html, url) {
        Some(link) => link,
        None => String::new(),
    }
}

// ---------------------------------------------------------------------------
// One step of the chapter-by-chapter download
// ---------------------------------------------------------------------------

/// What to do with a downloaded chapter page.
pub enum SyncStep {
    /// The page has no next chapter: the book has `chapters` chapters and
    /// this page is not saved.
    Finished { chapters: i32 },
    /// Save `page` to `path`, then download `next_url` as chapter
    /// `next_index`.
    Save { path: String, page: String, next_url: String, next_index: i32 },
}

/// The step taken on the page `body` of chapter `index`, downloaded from
/// `url`: where the page's next link is empty, the book ends with `index`
/// chapters; otherwise the chapter is saved to its file with its title and
/// text, and the next link is followed. `None` where the page cannot be handled (a
/// next link that cannot be made absolute, a page without a chapter section, or a next
/// chapter number past `i32::MAX`).
pub open spec fn sync_step_is(url: Seq<char>, index: int, body: Seq<char>, step: Option<SyncStep>) -> bool {
    match step {
        Some(SyncStep::Finished { chapters }) => {
            &&& next_link(body, url) == Some(Seq::<char>::empty())
            &&& chapters == index
        },
        Some(SyncStep::Save { path, page, next_url, next_index }) => {
            &&& next_link(body, url) == Some(next_url@)
            &&& next_url@.len() > 0
            &&& content_of(body) is Some
            &&& path@ == chapter_file(index)
            &&& page@ == chapter_page(title_of(body), content_of(body)->0)
            &&& next_index == index + 1
        },
        None => {
            ||| next_link(body, url) is None
            ||| (next_link(body, url) matches Some(n) && n.len() > 0 && content_section(body) is None)
            ||| (next_link(body, url) matches Some(n) && n.len() > 0 && content_section(body) is Some
                && index + 1 > i32::MAX)
        },
    }
}

/// Decides what to do with the page `body` of chapter `index`, downloaded
/// from `url` (see `sync_step_is`). Where the chapter is to be saved,
/// `html2md` must be able to convert its section (see `converts_to_markdown`).
pub fn sync_step(url: &String, index: i32, body: &String) -> (step: Option<SyncStep>)
    requires
        next_link(body@, url@) matches Some(next) && next.len() > 0 ==> converts_to_markdown(body@),
    ensures
        sync_step_is(url@, index as int, body@, step),
{
    let title = get_title(body);
    let next = match try_get_next_link(body, url) {
        Some(n) => n,
        None => {
            return None;
        },
    };
    if next.as_str().is_empty() {
        assert(next@ =~= Seq::<char>::empty());
        return Some(SyncStep::Finished { chapters: index });
    }
    let content = match try_parse_content(body.as_str()) {
        Some(c) => c,
        None => {
            return None;
        },
    };
    if index == i32::MAX {
        return None;
    }
    let path = chapter_file_path_i32(index);
    let page = chapter_markdown(title.as_str(), content.as_str());
    Some(SyncStep::Save { path, page, next_url: next, next_index: index + 1 })
}

} // verus!
