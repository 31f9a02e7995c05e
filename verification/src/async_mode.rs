//! Reading a novel's table of contents: the contents page's address, the
//! chapters each contents page lists, and when the listing ends.

use vstd::prelude::*;

use crate::links::{
    absolute_link, absolute_link_exec, lemma_absolute_link_defined, lemma_absolute_link_is_https,
};
use crate::text::{
    agree_from, between_or_empty, between_or_empty_exec, between_panics, between_range, chars_of,
    contains, contains_exec, copy_range, lemma_between_at, lemma_between_safe,
    lemma_lines_mentioning_append, lemma_no_overlap, lemma_split_nonempty, lines_mentioning,
    lines_mentioning_exec, matches_at, no_overlap_from, replace, replace_exec, split, split_exec,
    starts_with, string_of, substring_between, texts_of, trim, trim_exec,
};

verus! {

/// One entry of a novel's table of contents.
#[derive(Debug)]
pub struct Chapter {
    pub title: String,
    pub link: String,
    pub index: String,
}

/// The text of a table-of-contents entry.
pub struct ChapterText {
    pub title: Seq<char>,
    pub link: Seq<char>,
    pub index: Seq<char>,
}

impl View for Chapter {
    type V = ChapterText;

    open spec fn view(&self) -> ChapterText {
        ChapterText { title: self.title@, link: self.link@, index: self.index@ }
    }
}

proof fn lemma_contents_markers(line: Seq<char>)
    ensures
        !between_panics(line, "href="@, ">"@),
{
    reveal_strlit("href=");
    reveal_strlit(">");
    reveal_with_fuel(no_overlap_from, 7);
    reveal_with_fuel(agree_from, 2);
    lemma_no_overlap("href="@, ">"@);
    lemma_between_safe(line, "href="@, ">"@);
}

/// The `href` of the "latest chapters" box on a novel's main page, without
/// double quotes: the lines holding `chapter-latest-container` are joined
/// and the value between `href=` and `>` is taken.
pub open spec fn contents_href(html: Seq<char>) -> Seq<char> {
    let line = lines_mentioning(html, "chapter-latest-container"@, "chapter-latest-container"@);
    replace(between_or_empty(line, "href="@, ">"@), "\""@, ""@)
}

/// The address of a novel's table of contents, read from its main page at
/// `url`; `None` where the `href` is relative and `url` has no host piece.
pub open spec fn contents_link(html: Seq<char>, url: Seq<char>) -> Option<Seq<char>> {
    absolute_link(contents_href(html), url)
}

/// A main page whose address starts with `https://` always yields the
/// address of its table of contents.
pub proof fn lemma_contents_link_defined(html: Seq<char>, url: Seq<char>)
    requires
        starts_with(url, "https://"@),
    ensures
        contents_link(html, url) is Some,
{
    lemma_absolute_link_defined(contents_href(html), url);
}

/// Only the lines holding `chapter-latest-container` are read: appending
/// a line break and lines without it does not change the contents link.
pub proof fn lemma_contents_link_ignores_other_lines(html: Seq<char>, extra: Seq<char>, url: Seq<char>)
    requires
        forall|k: int|
            0 <= k < split(extra, seq!['\n']).len() ==> !contains(
                #[trigger] split(extra, seq!['\n'])[k],
                "chapter-latest-container"@,
            ),
    ensures
        contents_link(html + seq!['\n'] + extra, url) == contents_link(html, url),
{
    lemma_lines_mentioning_append(
        html,
        extra,
        "chapter-latest-container"@,
        "chapter-latest-container"@,
    );
}

/// The address of a novel's table of contents, or `None` where the page's
/// link is relative and `url` has no host to put before it.
pub fn try_get_contents_link(html: &str, url: &str) -> (r: Option<String>)
    ensures
        match r {
            Some(link) => contents_link(html@, url@) == Some(link@),
            None => contents_link(html@, url@) is None,
        },
{
    let h = chars_of(html);
    let key = chars_of("chapter-latest-container");
    let line = lines_mentioning_exec(h.as_slice(), key.as_slice(), key.as_slice());
    let open_marker = chars_of("href=");
    let close_marker = chars_of(">");
    proof {
        lemma_contents_markers(line@);
        reveal_strlit("\"");
    }
    let value = between_or_empty_exec(line.as_slice(), open_marker.as_slice(), close_marker.as_slice());
    let href = replace_exec(value.as_slice(), chars_of("\"").as_slice(), chars_of("").as_slice());
    let u = chars_of(url);
    match absolute_link_exec(href.as_slice(), u.as_slice()) {
        Some(link) => Some(string_of(link.as_slice())),
        None => None,
    }
}

/// The address of a novel's table of contents, read from its main page at
/// `url`: the link of the "latest chapters" box, made absolute.
pub fn get_contents_link(html: &str, url: &str) -> (link: String)
    requires
        contents_link(html@, url@) is Some,
    ensures
        contents_link(html@, url@) == Some(link@),
        starts_with(link@, "https://"@),
{
    proof {
        lemma_absolute_link_is_https(contents_href(html@), url@);
    }
    match try_get_contents_link(html, url) {
        Some(link) => link,
        None => String::new(),
    }
}

// ---------------------------------------------------------------------------
// Chapters listed on a contents page
// ---------------------------------------------------------------------------

proof fn lemma_entry_markers(z: Seq<char>)
    ensures
        !between_panics(z, "href="@, "title"@),
        !between_panics(z, "title="@, ">"@),
        !between_panics(z, "data-orderno="@, ">"@),
        !between_panics(z, "Chapter"@, ":"@),
{
    reveal_strlit("href=");
    reveal_strlit("title");
    reveal_strlit("title=");
    reveal_strlit(">");
    reveal_strlit("data-orderno=");
    reveal_strlit("Chapter");
    reveal_strlit(":");
    reveal_with_fuel(no_overlap_from, 15);
    reveal_with_fuel(agree_from, 3);
    lemma_no_overlap("href="@, "title"@);
    lemma_between_safe(z, "href="@, "title"@);
    lemma_no_overlap("title="@, ">"@);
    lemma_between_safe(z, "title="@, ">"@);
    lemma_no_overlap("data-orderno="@, ">"@);
    lemma_between_safe(z, "data-orderno="@, ">"@);
    lemma_no_overlap("Chapter"@, ":"@);
    lemma_between_safe(z, "Chapter"@, ":"@);
}

proof fn lemma_list_markers(body: Seq<char>)
    ensures
        !between_panics(body, "<ul class=\"chapter-list\">"@, "</ul>"@),
{
    reveal_strlit("<ul class=\"chapter-list\">");
    reveal_strlit("</ul>");
    reveal_with_fuel(no_overlap_from, 27);
    reveal_with_fuel(agree_from, 3);
    lemma_no_overlap("<ul class=\"chapter-list\">"@, "</ul>"@);
    lemma_between_safe(body, "<ul class=\"chapter-list\">"@, "</ul>"@);
}

/// The order number of a contents entry: the `data-orderno=` value without
/// quotes, else the text between `Chapter` and `:`, else nothing; all
/// trimmed. `None` where `data-orderno=` occurs but no `>` follows, so
/// there is no value to unwrap.
pub open spec fn entry_index(z: Seq<char>) -> Option<Seq<char>> {
    if contains(z, "data-orderno="@) {
        match substring_between(z, "data-orderno="@, ">"@) {
            Some(v) => Some(trim(replace(v, "\""@, ""@))),
            None => None,
        }
    } else if contains(z, "Chapter"@) {
        Some(trim(between_or_empty(z, "Chapter"@, ":"@)))
    } else {
        Some(Seq::empty())
    }
}

/// A chapter read from an entry carries the entry's index.
proof fn lemma_chapter_index(url: Seq<char>, z: Seq<char>)
    ensures
        chapter_entry(url, z) matches Some(c) ==> entry_index(z) == Some(c.index),
{
}

/// An entry holding `data-orderno=` takes its index from there, whatever its
/// title says: with `data-orderno=` first at `p` and the first `>` from
/// there on at `q`, the index is the text between them, unquoted and
/// trimmed.
pub proof fn lemma_entry_index_from_orderno(url: Seq<char>, z: Seq<char>, p: int, q: int)
    requires
        matches_at(z, "data-orderno="@, p),
        forall|k: int| 0 <= k < p ==> !#[trigger] matches_at(z, "data-orderno="@, k),
        matches_at(z, ">"@, q),
        p + "data-orderno="@.len() <= q,
        forall|k: int| p <= k < q ==> !#[trigger] matches_at(z, ">"@, k),
    ensures
        entry_index(z) == Some(
            trim(replace(z.subrange(p + "data-orderno="@.len(), q), "\""@, ""@)),
        ),
        chapter_entry(url, z) matches Some(c) ==> c.index == trim(
            replace(z.subrange(p + "data-orderno="@.len(), q), "\""@, ""@),
        ),
{
    lemma_between_at(z, "data-orderno="@, ">"@, p, q);
    assert(contains(z, "data-orderno="@));
    lemma_chapter_index(url, z);
}

/// An entry without `data-orderno=` but with `Chapter` takes its index from
/// the text after the first `Chapter` up to the next `:`, trimmed; one with
/// neither has an empty index.
pub proof fn lemma_entry_index_from_chapter_word(url: Seq<char>, z: Seq<char>, p: int, q: int)
    requires
        !contains(z, "data-orderno="@),
        matches_at(z, "Chapter"@, p),
        forall|k: int| 0 <= k < p ==> !#[trigger] matches_at(z, "Chapter"@, k),
        matches_at(z, ":"@, q),
        p + "Chapter"@.len() <= q,
        forall|k: int| p <= k < q ==> !#[trigger] matches_at(z, ":"@, k),
    ensures
        entry_index(z) == Some(trim(z.subrange(p + "Chapter"@.len(), q))),
        chapter_entry(url, z) matches Some(c) ==> c.index == trim(
            z.subrange(p + "Chapter"@.len(), q),
        ),
{
    lemma_between_at(z, "Chapter"@, ":"@, p, q);
    assert(contains(z, "Chapter"@));
    lemma_chapter_index(url, z);
}

/// An entry with neither `data-orderno=` nor `Chapter` has an empty index.
pub proof fn lemma_entry_index_empty(url: Seq<char>, z: Seq<char>)
    requires
        !contains(z, "data-orderno="@),
        !contains(z, "Chapter"@),
    ensures
        entry_index(z) == Some(Seq::<char>::empty()),
        chapter_entry(url, z) matches Some(c) ==> c.index.len() == 0,
{
    lemma_chapter_index(url, z);
}

/// One piece of a contents list (the text before a `</li>`) read as a
/// chapter: its link is the `href=` value up to `title`, unquoted, trimmed
/// and made absolute against the page address `url`; its title is the
/// `title=` value up to `>`, unquoted, trimmed, with `&#x2019;` read as `'`;
/// its index is `entry_index`. `None` where the piece cannot be read: a missing
/// `href=` or `title=` value, or a relative link on a page address without
/// a host.
pub open spec fn chapter_entry(url: Seq<char>, z: Seq<char>) -> Option<ChapterText> {
    match (substring_between(z, "href="@, "title"@), substring_between(z, "title="@, ">"@)) {
        (Some(href), Some(title)) => match (
            absolute_link(trim(replace(href, "\""@, ""@)), url),
            entry_index(z),
        ) {
            (Some(link), Some(index)) => Some(
                ChapterText {
                    title: replace(trim(replace(title, "\""@, ""@)), "&#x2019;"@, "'"@),
                    link,
                    index,
                },
            ),
            _ => None,
        },
        _ => None,
    }
}

/// Every piece read as a chapter, in order; `None` where any piece fails.
pub open spec fn chapter_entries(url: Seq<char>, pieces: Seq<Seq<char>>) -> Option<Seq<ChapterText>>
    decreases pieces.len(),
{
    if pieces.len() == 0 {
        Some(Seq::empty())
    } else {
        match (chapter_entries(url, pieces.drop_last()), chapter_entry(url, pieces.last())) {
            (Some(front), Some(entry)) => Some(front.push(entry)),
            _ => None,
        }
    }
}

/// The chapters a contents page lists: the text of its
/// `<ul class="chapter-list">` element cut at each `</li>`, every piece read
/// as a chapter, and the last piece (what follows the final `</li>`)
/// dropped. `None` where the page cannot be read: no list element after the
/// marker, or a piece that `chapter_entry` cannot read.
pub open spec fn page_links(url: Seq<char>, body: Seq<char>) -> Option<Seq<ChapterText>> {
    match substring_between(body, "<ul class=\"chapter-list\">"@, "</ul>"@) {
        Some(list) => match chapter_entries(url, split(list, "</li>"@)) {
            Some(entries) => Some(entries.drop_last()),
            None => None,
        },
        None => None,
    }
}

/// Chapter entries hold a link that starts with `https://`.
pub open spec fn links_are_https(entries: Seq<ChapterText>) -> bool {
    forall|k: int| 0 <= k < entries.len() ==> starts_with(#[trigger] entries[k].link, "https://"@)
}

proof fn lemma_entries(url: Seq<char>, pieces: Seq<Seq<char>>)
    ensures
        chapter_entries(url, pieces) matches Some(entries) ==> entries.len() == pieces.len()
            && links_are_https(entries),
    decreases pieces.len(),
{
    if pieces.len() > 0 {
        lemma_entries(url, pieces.drop_last());
        if let Some(entries) = chapter_entries(url, pieces) {
            let z = pieces.last();
            let href = substring_between(z, "href="@, "title"@)->0;
            lemma_absolute_link_is_https(trim(replace(href, "\""@, ""@)), url);
        }
    }
}

/// A contents page lists one chapter for each `</li>` of its list: the
/// chapters number one fewer than the pieces the list is cut into, and the
/// `k`-th chapter is read from the `k`-th piece.
pub proof fn lemma_page_links_count(url: Seq<char>, body: Seq<char>, list: Seq<char>)
    requires
        substring_between(body, "<ul class=\"chapter-list\">"@, "</ul>"@) == Some(list),
    ensures
        page_links(url, body) matches Some(chapters) ==> chapters.len() + 1 == split(
            list,
            "</li>"@,
        ).len() && forall|k: int|
            0 <= k < chapters.len() ==> chapter_entry(url, split(list, "</li>"@)[k]) == Some(
                #[trigger] chapters[k],
            ),
{
    let pieces = split(list, "</li>"@);
    reveal_strlit("</li>");
    lemma_split_nonempty(list, "</li>"@);
    lemma_entries(url, pieces);
    lemma_entries_each(url, pieces);
}

proof fn lemma_entries_each(url: Seq<char>, pieces: Seq<Seq<char>>)
    ensures
        chapter_entries(url, pieces) matches Some(entries) ==> forall|k: int|
            0 <= k < entries.len() && k < pieces.len() ==> chapter_entry(url, pieces[k]) == Some(
                #[trigger] entries[k],
            ),
    decreases pieces.len(),
{
    if pieces.len() > 0 {
        lemma_entries_each(url, pieces.drop_last());
        lemma_entries(url, pieces.drop_last());
    }
}

/// Reads one piece of a contents list as a chapter (see `chapter_entry`).
fn read_entry(url: &[char], z: &[char]) -> (r: Option<Chapter>)
    ensures
        match r {
            Some(c) => chapter_entry(url@, z@) == Some(c@),
            None => chapter_entry(url@, z@) is None,
        },
{
    proof {
        lemma_entry_markers(z@);
        reveal_strlit("\"");
        reveal_strlit("&#x2019;");
        reveal_strlit("data-orderno=");
    }
    let quote = chars_of("\"");
    let nothing = chars_of("");
    let href_range = between_range(z, chars_of("href=").as_slice(), chars_of("title").as_slice());
    let title_range = between_range(z, chars_of("title=").as_slice(), chars_of(">").as_slice());
    let (ha, hb, ta, tb) = match (href_range, title_range) {
        (Some((ha, hb)), Some((ta, tb))) => (ha, hb, ta, tb),
        _ => {
            return None;
        },
    };
    let href = copy_range(z, ha, hb);
    let title_raw = copy_range(z, ta, tb);
    let href_clean = trim_exec(replace_exec(href.as_slice(), quote.as_slice(), nothing.as_slice()).as_slice());
    let link = match absolute_link_exec(href_clean.as_slice(), url) {
        Some(l) => l,
        None => {
            return None;
        },
    };
    let title_unquoted = trim_exec(
        replace_exec(title_raw.as_slice(), quote.as_slice(), nothing.as_slice()).as_slice(),
    );
    let title = replace_exec(
        title_unquoted.as_slice(),
        chars_of("&#x2019;").as_slice(),
        chars_of("'").as_slice(),
    );
    let order_marker = chars_of("data-orderno=");
    let index = if contains_exec(z, order_marker.as_slice()) {
        match between_range(z, order_marker.as_slice(), chars_of(">").as_slice()) {
            Some((a, b)) => {
                let v = copy_range(z, a, b);
                trim_exec(replace_exec(v.as_slice(), quote.as_slice(), nothing.as_slice()).as_slice())
            },
            None => {
                return None;
            },
        }
    } else {
        let chapter_word = chars_of("Chapter");
        if contains_exec(z, chapter_word.as_slice()) {
            let v = between_or_empty_exec(z, chapter_word.as_slice(), chars_of(":").as_slice());
            trim_exec(v.as_slice())
        } else {
            Vec::new()
        }
    };
    Some(
        Chapter {
            title: string_of(title.as_slice()),
            link: string_of(link.as_slice()),
            index: string_of(index.as_slice()),
        },
    )
}

/// The chapters a contents page lists, or `None` where the page cannot be read
/// (see `page_links`).
pub fn try_get_page_links(url: &String, body: &String) -> (r: Option<Vec<Chapter>>)
    ensures
        match r {
            Some(chapters) => page_links(url@, body@) matches Some(entries) && chapters@.len()
                == entries.len() && forall|k: int|
                0 <= k < entries.len() ==> #[trigger] chapters@[k]@ == entries[k],
            None => page_links(url@, body@) is None,
        },
{
    let b = chars_of(body.as_str());
    let u = chars_of(url.as_str());
    proof {
        lemma_list_markers(b@);
        reveal_strlit("</li>");
    }
    let list = match between_range(
        b.as_slice(),
        chars_of("<ul class=\"chapter-list\">").as_slice(),
        chars_of("</ul>").as_slice(),
    ) {
        Some((x, y)) => copy_range(b.as_slice(), x, y),
        None => {
            return None;
        },
    };
    let pieces = split_exec(list.as_slice(), chars_of("</li>").as_slice());
    let ghost texts = split(list@, "</li>"@);
    let mut chapters: Vec<Chapter> = Vec::new();
    let mut k: usize = 0;
    while k < pieces.len()
        invariant
            k <= pieces@.len(),
            texts_of(pieces@) == texts,
            texts == split(list@, "</li>"@),
            u@ == url@,
            substring_between(body@, "<ul class=\"chapter-list\">"@, "</ul>"@) == Some(list@),
            chapter_entries(u@, texts.take(k as int)) matches Some(entries) && chapters@.len()
                == entries.len() && forall|i: int|
                0 <= i < entries.len() ==> #[trigger] chapters@[i]@ == entries[i],
        decreases pieces.len() - k,
    {
        assert(texts.take(k + 1).drop_last() =~= texts.take(k as int));
        assert(texts.take(k + 1).last() == pieces@[k as int]@);
        match read_entry(u.as_slice(), pieces[k].as_slice()) {
            Some(c) => {
                chapters.push(c);
            },
            None => {
                proof {
                    assert(texts[k as int] == pieces@[k as int]@);
                    lemma_entries_fail(u@, texts, k as int);
                }
                return None;
            },
        }
        k += 1;
    }
    assert(texts.take(pieces@.len() as int) =~= texts);
    proof {
        lemma_split_nonempty(list@, "</li>"@);
    }
    chapters.pop();
    Some(chapters)
}

/// Once one piece fails, every longer prefix fails.
proof fn lemma_entries_fail(url: Seq<char>, pieces: Seq<Seq<char>>, k: int)
    requires
        0 <= k < pieces.len(),
        chapter_entry(url, pieces[k]) is None,
    ensures
        chapter_entries(url, pieces) is None,
    decreases pieces.len(),
{
    if k < pieces.len() - 1 {
        lemma_entries_fail(url, pieces.drop_last(), k);
    }
}

/// The chapters a contents page at `url` lists, each with a link that
/// starts with `https://`.
pub fn get_page_links(url: &String, body: &String) -> (chapters: Vec<Chapter>)
    requires
        page_links(url@, body@) is Some,
    ensures
        page_links(url@, body@) matches Some(entries) && chapters@.len() == entries.len()
            && forall|k: int| 0 <= k < entries.len() ==> #[trigger] chapters@[k]@ == entries[k],
        forall|k: int| 0 <= k < chapters@.len() ==> starts_with(#[trigger] chapters@[k].link@, "https://"@),
{
    let chapters = match try_get_page_links(url, body) {
        Some(chapters) => chapters,
        None => Vec::new(),
    };
    proof {
        let list = substring_between(body@, "<ul class=\"chapter-list\">"@, "</ul>"@)->0;
        let all = chapter_entries(url@, split(list, "</li>"@))->0;
        reveal_strlit("</li>");
        lemma_entries(url@, split(list, "</li>"@));
        lemma_split_nonempty(list, "</li>"@);
        assert forall|k: int| 0 <= k < chapters@.len() implies starts_with(
            #[trigger] chapters@[k].link@,
            "https://"@,
        ) by {
            assert(all.drop_last()[k] == all[k]);
            assert(chapters@[k]@ == all.drop_last()[k]);
            assert(starts_with(all[k].link, "https://"@));
        }
    }
    chapters
}

/// The chapters that the contents pages list, page after page in order;
/// `None` where any page cannot be read.
pub open spec fn all_page_links(url: Seq<char>, pages: Seq<Seq<char>>) -> Option<Seq<ChapterText>>
    decreases pages.len(),
{
    if pages.len() == 0 {
        Some(Seq::empty())
    } else {
        match (all_page_links(url, pages.drop_last()), page_links(url, pages.last())) {
            (Some(front), Some(last)) => Some(front + last),
            _ => None,
        }
    }
}

/// The texts of a sequence of strings.
pub open spec fn string_texts(v: Seq<String>) -> Seq<Seq<char>> {
    v.map_values(|x: String| x@)
}

/// Once one page fails, the whole listing fails.
proof fn lemma_all_pages_fail(url: Seq<char>, pages: Seq<Seq<char>>, k: int)
    requires
        0 <= k < pages.len(),
        page_links(url, pages[k]) is None,
    ensures
        all_page_links(url, pages) is None,
    decreases pages.len(),
{
    if k < pages.len() - 1 {
        lemma_all_pages_fail(url, pages.drop_last(), k);
    }
}

/// The chapters listed by all the downloaded contents pages of the table of
/// contents at `url`, in page order; `None` where some page cannot be read.
pub fn get_all_page_links(url: &String, pages: &Vec<String>) -> (r: Option<Vec<Chapter>>)
    ensures
        match r {
            Some(chapters) => all_page_links(url@, string_texts(pages@)) matches Some(entries)
                && chapters@.len() == entries.len() && forall|k: int|
                0 <= k < entries.len() ==> #[trigger] chapters@[k]@ == entries[k],
            None => all_page_links(url@, string_texts(pages@)) is None,
        },
{
    let ghost texts = string_texts(pages@);
    let mut chapters: Vec<Chapter> = Vec::new();
    let mut k: usize = 0;
    while k < pages.len()
        invariant
            k <= pages@.len(),
            texts == string_texts(pages@),
            all_page_links(url@, texts.take(k as int)) matches Some(entries) && chapters@.len()
                == entries.len() && forall|i: int|
                0 <= i < entries.len() ==> #[trigger] chapters@[i]@ == entries[i],
        decreases pages.len() - k,
    {
        assert(texts.take(k + 1).drop_last() =~= texts.take(k as int));
        assert(texts.take(k + 1).last() == pages@[k as int]@);
        let ghost before = chapters@;
        let ghost entries = all_page_links(url@, texts.take(k as int))->0;
        match try_get_page_links(url, &pages[k]) {
            Some(mut links) => {
                let ghost more = page_links(url@, pages@[k as int]@)->0;
                let ghost added = links@;
                chapters.append(&mut links);
                assert forall|i: int| 0 <= i < entries.len() + more.len() implies #[trigger] chapters@[i]@
                    == (entries + more)[i] by {
                    if i < entries.len() {
                        assert(chapters@[i] == before[i]);
                    } else {
                        assert(chapters@[i] == added[i - entries.len()]);
                    }
                }
            },
            None => {
                proof {
                    assert(texts[k as int] == pages@[k as int]@);
                    lemma_all_pages_fail(url@, texts, k as int);
                }
                return None;
            },
        }
        k += 1;
    }
    assert(texts.take(pages@.len() as int) =~= texts);
    Some(chapters)
}

// ---------------------------------------------------------------------------
// Decisions of the download loops
// ---------------------------------------------------------------------------

/// The site answered with its "servers are busy" page instead of a chapter.
pub open spec fn server_busy(content: Seq<char>) -> bool {
    contains(content, "All of our servers are busy right now"@)
}

/// Whether a downloaded chapter is the site's "servers are busy" page, so
/// that the download is to be retried.
pub fn is_server_busy(content: &str) -> (busy: bool)
    ensures
        busy == server_busy(content@),
{
    let c = chars_of(content);
    contains_exec(c.as_slice(), chars_of("All of our servers are busy right now").as_slice())
}

proof fn lemma_listing_markers(page: Seq<char>)
    ensures
        !between_panics(page, "class=\"chapter-list"@, "</ul>"@),
{
    reveal_strlit("class=\"chapter-list");
    reveal_strlit("</ul>");
    reveal_with_fuel(no_overlap_from, 21);
    reveal_with_fuel(agree_from, 2);
    lemma_no_overlap("class=\"chapter-list"@, "</ul>"@);
    lemma_between_safe(page, "class=\"chapter-list"@, "</ul>"@);
}

/// The number of bytes `c` takes in UTF-8.
pub open spec fn utf8_width(c: char) -> nat {
    if (c as u32) < 0x80 {
        1
    } else if (c as u32) < 0x800 {
        2
    } else if (c as u32) < 0x10000 {
        3
    } else {
        4
    }
}

/// The number of bytes `s` takes in UTF-8 (`str::len`).
pub open spec fn utf8_len(s: Seq<char>) -> nat
    decreases s.len(),
{
    if s.len() == 0 {
        0
    } else {
        utf8_len(s.drop_last()) + utf8_width(s.last())
    }
}

/// UTF-8 takes a byte for each character below `0x80` and more for any
/// other: the byte length is at least the character count, at most four
/// times it, and equal to it exactly when every character is below `0x80`.
pub proof fn lemma_utf8_len_bounds(s: Seq<char>)
    ensures
        s.len() <= utf8_len(s) <= 4 * s.len(),
        utf8_len(s) == s.len() <==> forall|k: int| 0 <= k < s.len() ==> (#[trigger] s[k] as u32) < 0x80,
    decreases s.len(),
{
    if s.len() > 0 {
        lemma_utf8_len_bounds(s.drop_last());
        if forall|k: int| 0 <= k < s.len() ==> (#[trigger] s[k] as u32) < 0x80 {
            assert(s.last() == s[s.len() - 1]);
            assert forall|k: int| 0 <= k < s.drop_last().len() implies (#[trigger] s.drop_last()[k] as u32)
                < 0x80 by {
                assert(s.drop_last()[k] == s[k]);
            }
        }
        if utf8_len(s) == s.len() {
            assert forall|k: int| 0 <= k < s.len() implies (#[trigger] s[k] as u32) < 0x80 by {
                if k < s.len() - 1 {
                    assert(s[k] == s.drop_last()[k]);
                }
            }
        }
    }
}

/// A contents page past the last one: the site says "Page Not Found", or
/// the chapter list (from `class="chapter-list` to `</ul>`) takes fewer than
/// ten bytes of UTF-8.
pub open spec fn past_last_contents_page(page: Seq<char>) -> bool {
    contains(page, "Page Not Found"@) || utf8_len(
        between_or_empty(page, "class=\"chapter-list"@, "</ul>"@),
    ) < 10
}

fn utf8_width_exec(c: char) -> (w: usize)
    ensures
        w == utf8_width(c),
{
    let v = c as u32;
    if v < 0x80 {
        1
    } else if v < 0x800 {
        2
    } else if v < 0x10000 {
        3
    } else {
        4
    }
}

/// Whether `s` takes fewer than ten bytes of UTF-8.
fn utf8_shorter_than_ten(s: &[char]) -> (short: bool)
    ensures
        short == (utf8_len(s@) < 10),
{
    let mut total: usize = 0;
    let mut k: usize = 0;
    while k < s.len()
        invariant
            k <= s@.len(),
            total <= 13,
            total < 10 ==> total == utf8_len(s@.take(k as int)),
            total >= 10 ==> utf8_len(s@.take(k as int)) >= 10,
        decreases s.len() - k,
    {
        assert(s@.take(k + 1).drop_last() =~= s@.take(k as int));
        let w = utf8_width_exec(s[k]);
        if total < 10 {
            total = total + w;
        }
        k += 1;
    }
    assert(s@.take(s@.len() as int) =~= s@);
    total < 10
}

/// Whether a downloaded contents page lies past the last one, which ends
/// the walk through the contents pages.
pub fn is_last_contents_page(page: &str) -> (last: bool)
    ensures
        last == past_last_contents_page(page@),
{
    let p = chars_of(page);
    if contains_exec(p.as_slice(), chars_of("Page Not Found").as_slice()) {
        return true;
    }
    proof {
        lemma_listing_markers(p@);
    }
    match between_range(
        p.as_slice(),
        chars_of("class=\"chapter-list").as_slice(),
        chars_of("</ul>").as_slice(),
    ) {
        Some((a, b)) => utf8_shorter_than_ten(copy_range(p.as_slice(), a, b).as_slice()),
        None => true,
    }
}

} // verus!
