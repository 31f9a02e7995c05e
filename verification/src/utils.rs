//! Reading a novel's main page: its title, its cover image, the text between
//! two markers.

use vstd::prelude::*;
use vstd::string::StrSliceExecFns;

use crate::text::{
    agree_from, between_or_empty, between_or_empty_exec, between_panics, between_range, chars_of,
    contains, copy_range, find, find_from, find_from_exec, is_trimmed, lemma_between_at,
    lemma_between_safe, lemma_find_from, lemma_find_from_is, lemma_find_from_prefix,
    lemma_no_char_before, lemma_no_overlap, lemma_replace_absent, lemma_replace_removes_char,
    lemma_trim_is_trimmed, lemma_trim_within, matches_at, no_overlap_from, replace, replace_exec,
    string_of, strip_prefixes, strip_prefixes_exec, substring_between, trim, trim_exec,
};

verus! {

/// The cut between markers as `str` slicing defines it: the text after the
/// first `start` up to the first `end` that follows it; the whole text when
/// either marker is missing; `None` when no `end` follows the first `start`.
pub fn get_substring_between<'a>(text: &'a str, start: &'a str, end: &'a str) -> (r: Option<&'a str>)
    requires
        !between_panics(text@, start@, end@),
    ensures
        match r {
            Some(s) => substring_between(text@, start@, end@) == Some(s@),
            None => substring_between(text@, start@, end@) is None,
        },
        !contains(text@, start@) || !contains(text@, end@) ==> (r matches Some(s) && s@ == text@),
{
    let t = chars_of(text);
    let s = chars_of(start);
    let e = chars_of(end);
    match between_range(t.as_slice(), s.as_slice(), e.as_slice()) {
        Some((a, b)) => Some(text.substring_char(a, b)),
        None => None,
    }
}

/// The `<title>...</title>` markers never make the cut panic.
proof fn lemma_title_markers(t: Seq<char>)
    ensures
        !between_panics(t, "<title>"@, "</title>"@),
{
    reveal_strlit("<title>");
    reveal_strlit("</title>");
    reveal_with_fuel(no_overlap_from, 9);
    reveal_with_fuel(agree_from, 3);
    lemma_no_overlap("<title>"@, "</title>"@);
    lemma_between_safe(t, "<title>"@, "</title>"@);
}

/// The title text with entity and site-name clean-up, before it is cut at
/// the first `|`.
pub open spec fn raw_title(html: Seq<char>) -> Seq<char> {
    let in_tag = between_or_empty(html, "<title>"@, "</title>"@);
    replace(
        replace(
            replace(replace(in_tag, "&#x27;"@, "'"@), "&#x2019;"@, "'"@),
            " - Top Novel Updates"@,
            ""@,
        ),
        " - Web Novel Pub"@,
        ""@,
    )
}

/// A novel's title: the `<title>` text with `&#x27;` and `&#x2019;` read as
/// `'`, the site-name suffixes dropped, cut before the first `|`, trimmed.
pub open spec fn title_of(html: Seq<char>) -> Seq<char> {
    let t = raw_title(html);
    match find(t, "|"@) {
        Some(end) => trim(t.take(end)),
        None => trim(t),
    }
}

/// Only the first `<title>...</title>` element is read: once the page has
/// one, whatever follows does not change the title.
pub proof fn lemma_title_ignores_suffix(html: Seq<char>, rest: Seq<char>)
    requires
        contains(html, "<title>"@),
        find_from(html, "</title>"@, find(html, "<title>"@)->0) is Some,
    ensures
        title_of(html + rest) == title_of(html),
{
    let open_tag = "<title>"@;
    let close_tag = "</title>"@;
    let f = find(html, open_tag)->0;
    let j = find_from(html, close_tag, f)->0;
    lemma_find_from(html, open_tag, 0);
    lemma_find_from(html, close_tag, f);
    lemma_find_from(html, close_tag, 0);
    assert(matches_at(html, close_tag, j));
    lemma_find_from_prefix(html, rest, open_tag, 0);
    lemma_find_from_prefix(html, rest, close_tag, 0);
    lemma_find_from_prefix(html, rest, close_tag, f);
    lemma_title_markers(html);
    assert((html + rest).subrange(f + open_tag.len(), j) =~= html.subrange(
        f + open_tag.len(),
        j,
    ));
    assert(between_or_empty(html + rest, open_tag, close_tag) == between_or_empty(
        html,
        open_tag,
        close_tag,
    ));
}

/// The title is the text of the `<title>` element, cut before its first
/// `|` and trimmed: where that text holds none of the cleaned-up entities
/// and site names, and no `|`, the title is that text trimmed; nothing else
/// in it (such as a ` - `) shortens it.
pub proof fn lemma_title_is_title_text(html: Seq<char>, t: Seq<char>)
    requires
        substring_between(html, "<title>"@, "</title>"@) == Some(t),
        !contains(t, "&#x27;"@),
        !contains(t, "&#x2019;"@),
        !contains(t, " - Top Novel Updates"@),
        !contains(t, " - Web Novel Pub"@),
        !t.contains('|'),
    ensures
        title_of(html) == trim(t),
{
    lemma_title_clean(html, t);
    reveal_strlit("|");
    let bar = "|"@;
    assert(bar =~= seq!['|']);
    lemma_find_from(t, bar, 0);
    if let Some(j) = find(t, bar) {
        assert(t[j] == t.subrange(j, j + 1)[0]);
    }
}

/// Where the `<title>` text (free of the cleaned-up entities and site names)
/// has its first `|` at `k`, the title is the trimmed text before it.
pub proof fn lemma_title_cut_at_bar(html: Seq<char>, t: Seq<char>, k: int)
    requires
        substring_between(html, "<title>"@, "</title>"@) == Some(t),
        !contains(t, "&#x27;"@),
        !contains(t, "&#x2019;"@),
        !contains(t, " - Top Novel Updates"@),
        !contains(t, " - Web Novel Pub"@),
        0 <= k < t.len(),
        t[k] == '|',
        !t.take(k).contains('|'),
    ensures
        title_of(html) == trim(t.take(k)),
{
    lemma_title_clean(html, t);
    reveal_strlit("|");
    let bar = "|"@;
    assert(bar =~= seq!['|']);
    assert(t.subrange(k, k + 1) =~= bar);
    assert forall|i: int| 0 <= i < k implies !#[trigger] matches_at(t, bar, i) by {
        if matches_at(t, bar, i) {
            assert(t.subrange(i, i + 1)[0] == t.take(k)[i]);
        }
    }
    lemma_find_from_is(t, bar, 0, k);
}

proof fn lemma_title_clean(html: Seq<char>, t: Seq<char>)
    requires
        substring_between(html, "<title>"@, "</title>"@) == Some(t),
        !contains(t, "&#x27;"@),
        !contains(t, "&#x2019;"@),
        !contains(t, " - Top Novel Updates"@),
        !contains(t, " - Web Novel Pub"@),
    ensures
        raw_title(html) == t,
{
    reveal_strlit("&#x27;");
    reveal_strlit("&#x2019;");
    reveal_strlit(" - Top Novel Updates");
    reveal_strlit(" - Web Novel Pub");
    lemma_replace_absent(t, "&#x27;"@, "'"@);
    lemma_replace_absent(t, "&#x2019;"@, "'"@);
    lemma_replace_absent(t, " - Top Novel Updates"@, ""@);
    lemma_replace_absent(t, " - Web Novel Pub"@, ""@);
}

/// The novel's title, read from its main page.
pub fn get_title(html: &String) -> (title: String)
    ensures
        title@ == title_of(html@),
        is_trimmed(title@),
        !title@.contains('|'),
{
    proof {
        lemma_title_markers(html@);
        reveal_strlit("&#x27;");
        reveal_strlit("&#x2019;");
        reveal_strlit(" - Top Novel Updates");
        reveal_strlit(" - Web Novel Pub");
        reveal_strlit("|");
    }
    let h = chars_of(html.as_str());
    let open_tag = chars_of("<title>");
    let close_tag = chars_of("</title>");
    let in_tag = between_or_empty_exec(h.as_slice(), open_tag.as_slice(), close_tag.as_slice());
    let apos = chars_of("'");
    let nothing = chars_of("");
    let t1 = replace_exec(in_tag.as_slice(), chars_of("&#x27;").as_slice(), apos.as_slice());
    let t2 = replace_exec(t1.as_slice(), chars_of("&#x2019;").as_slice(), apos.as_slice());
    let t3 = replace_exec(
        t2.as_slice(),
        chars_of(" - Top Novel Updates").as_slice(),
        nothing.as_slice(),
    );
    let t4 = replace_exec(t3.as_slice(), chars_of(" - Web Novel Pub").as_slice(), nothing.as_slice());
    let bar = chars_of("|");
    assert(bar@ =~= seq!['|']);
    let cut = match find_from_exec(t4.as_slice(), bar.as_slice(), 0) {
        Some(end) => {
            proof {
                lemma_find_from(t4@, bar@, 0);
            }
            copy_range(t4.as_slice(), 0, end)
        },
        None => copy_range(t4.as_slice(), 0, t4.len()),
    };
    proof {
        assert(t4@.subrange(0, t4@.len() as int) =~= t4@);
        lemma_no_char_before(t4@, '|');
        lemma_trim_within(cut@, '|');
        lemma_trim_is_trimmed(cut@);
    }
    let trimmed = trim_exec(cut.as_slice());
    string_of(trimmed.as_slice())
}

proof fn lemma_cover_markers(t: Seq<char>, u: Seq<char>)
    ensures
        !between_panics(t, "<figure"@, "</figure>"@),
        !between_panics(u, "data-src="@, "alt"@),
{
    reveal_strlit("<figure");
    reveal_strlit("</figure>");
    reveal_strlit("data-src=");
    reveal_strlit("alt");
    reveal_with_fuel(no_overlap_from, 11);
    reveal_with_fuel(agree_from, 3);
    lemma_no_overlap("<figure"@, "</figure>"@);
    lemma_between_safe(t, "<figure"@, "</figure>"@);
    lemma_no_overlap("data-src="@, "alt"@);
    lemma_between_safe(u, "data-src="@, "alt"@);
}

/// The address of a novel's cover image: the `data-src=` value inside the
/// page's `<figure` element, without double quotes, trimmed.
pub open spec fn cover_url_of(html: Seq<char>) -> Seq<char> {
    let figure = between_or_empty(html, "<figure"@, "</figure>"@);
    trim(replace(between_or_empty(figure, "data-src="@, "alt"@), "\""@, ""@))
}

/// The cover address is read from `data-src=`: where the figure text has
/// its first `data-src=` at `p` and the first `alt` from there on at `q`,
/// the address is the text between them, unquoted and trimmed (a plain
/// `src=` earlier in the figure plays no part).
pub proof fn lemma_cover_url_at(html: Seq<char>, figure: Seq<char>, p: int, q: int)
    requires
        substring_between(html, "<figure"@, "</figure>"@) == Some(figure),
        matches_at(figure, "data-src="@, p),
        forall|k: int| 0 <= k < p ==> !#[trigger] matches_at(figure, "data-src="@, k),
        matches_at(figure, "alt"@, q),
        p + "data-src="@.len() <= q,
        forall|k: int| p <= k < q ==> !#[trigger] matches_at(figure, "alt"@, k),
    ensures
        cover_url_of(html) == trim(replace(figure.subrange(p + "data-src="@.len(), q), "\""@, ""@)),
{
    lemma_between_at(figure, "data-src="@, "alt"@, p, q);
}

/// The cover image's address, read from a novel's main page.
pub fn get_cover_url(html: &str) -> (url: String)
    ensures
        url@ == cover_url_of(html@),
        is_trimmed(url@),
        !url@.contains('"'),
{
    let h = chars_of(html);
    let fig_open = chars_of("<figure");
    let fig_close = chars_of("</figure>");
    proof {
        lemma_cover_markers(h@, between_or_empty(h@, fig_open@, fig_close@));
    }
    let line = between_or_empty_exec(h.as_slice(), fig_open.as_slice(), fig_close.as_slice());
    let src_open = chars_of("data-src=");
    let src_close = chars_of("alt");
    let value = between_or_empty_exec(line.as_slice(), src_open.as_slice(), src_close.as_slice());
    let quote = chars_of("\"");
    let nothing = chars_of("");
    proof {
        reveal_strlit("\"");
        reveal_strlit("");
        assert(quote@ =~= seq!['"']);
    }
    let unquoted = replace_exec(value.as_slice(), quote.as_slice(), nothing.as_slice());
    proof {
        lemma_replace_removes_char(value@, '"', nothing@);
        lemma_trim_within(unquoted@, '"');
        lemma_trim_is_trimmed(unquoted@);
    }
    let trimmed = trim_exec(unquoted.as_slice());
    string_of(trimmed.as_slice())
}

// ---------------------------------------------------------------------------
// Chapter text
// ---------------------------------------------------------------------------

/// What `html2md::parse_html` makes of an HTML text; `None` where it
/// panics instead of returning.
pub uninterp spec fn html_to_markdown(html: Seq<char>) -> Option<Seq<char>>;

/// What compiling `pattern` with `regex::Regex::new` and then calling
/// `replace_all(text, replacement)` gives; `None` where the pattern does not
/// compile.
pub uninterp spec fn regex_replace_all(
    pattern: Seq<char>,
    text: Seq<char>,
    replacement: Seq<char>,
) -> Option<Seq<char>>;

/// Calls `html2md::parse_html`. Its result is named, not described: the
/// conversion of an HTML document tree to markdown is that crate's own.
/// The conversion panics on some inputs (an element handler can slice the
/// output at a position that an inner list item has already deleted, as
/// with `<p></p><b><li>x</li></b>`); which inputs those are depends on the
/// document tree that html5ever builds and is not stated, so the contract
/// admits only the inputs on which the named result is defined.
#[verifier::external_body]
fn markdown_of(html: &str) -> (md: String)
    requires
        html_to_markdown(html@) is Some,
    ensures
        html_to_markdown(html@) == Some(md@),
{
    html2md::parse_html(html)
}

/// Calls `regex::Regex::new(pattern)` and, where that succeeds, the compiled
/// regex's `replace_all(text, replacement)`. Its result is named, not
/// described: regular-expression matching is that crate's own. Of the
/// pattern `<script>.*?</script>` (literals, `.` and a lazy `*?`, all in the
/// crate's documented syntax, far below its size limits) the contract states
/// that it compiles.
#[verifier::external_body]
fn regex_replace(pattern: &str, text: &str, replacement: &str) -> (r: Option<String>)
    ensures
        match r {
            Some(s) => regex_replace_all(pattern@, text@, replacement@) == Some(s@),
            None => regex_replace_all(pattern@, text@, replacement@) is None,
        },
        pattern@ == "<script>.*?</script>"@ ==> r is Some,
{
    match regex::Regex::new(pattern) {
        Ok(re) => Some(re.replace_all(text, replacement).into_owned()),
        Err(_) => None,
    }
}

proof fn lemma_content_markers(t: Seq<char>)
    ensures
        !between_panics(t, "itemprop=\"description\""@, "chapternav"@),
{
    reveal_strlit("itemprop=\"description\"");
    reveal_strlit("chapternav");
    reveal_with_fuel(no_overlap_from, 24);
    reveal_with_fuel(agree_from, 3);
    lemma_no_overlap("itemprop=\"description\""@, "chapternav"@);
    lemma_between_safe(t, "itemprop=\"description\""@, "chapternav"@);
}

/// The part of a chapter page that holds the chapter: between
/// `itemprop="description"` and `chapternav`. `None` where both occur but no
/// `chapternav` follows, so there is no section to unwrap.
pub open spec fn content_section(html: Seq<char>) -> Option<Seq<char>> {
    substring_between(html, "itemprop=\"description\""@, "chapternav"@)
}

/// The chapter section starts after the first `itemprop="description"`:
/// with that marker first at `p` and the first `chapternav` from there on at
/// `q`, the section is exactly the text between them, so nothing that comes
/// before the marker (a `<meta name="description">`, say) belongs to it.
pub proof fn lemma_content_section_at(html: Seq<char>, p: int, q: int)
    requires
        matches_at(html, "itemprop=\"description\""@, p),
        forall|k: int| 0 <= k < p ==> !#[trigger] matches_at(html, "itemprop=\"description\""@, k),
        matches_at(html, "chapternav"@, q),
        p + "itemprop=\"description\""@.len() <= q,
        forall|k: int| p <= k < q ==> !#[trigger] matches_at(html, "chapternav"@, k),
    ensures
        content_section(html) == Some(
            html.subrange(p + "itemprop=\"description\""@.len(), q),
        ),
{
    lemma_between_at(html, "itemprop=\"description\""@, "chapternav"@, p, q);
}

/// The regular expression whose matches (inline scripts) are removed from
/// the chapter section.
pub open spec fn script_pattern() -> Seq<char> {
    "<script>.*?</script>"@
}

/// The markdown of a chapter, tidied: trimmed, with leading `\>` quote marks
/// removed, trimmed again, and the site's upload notice deleted.
pub open spec fn tidy_markdown(md: Seq<char>) -> Seq<char> {
    replace(
        trim(strip_prefixes(trim(md), "\\>"@)),
        "*This chapter upload first at **Novel Fire***"@,
        ""@,
    )
}

/// The chapter section with inline scripts removed; `None` where there is
/// no section (the script pattern always compiles: see `regex_replace`).
pub open spec fn script_free_section(html: Seq<char>) -> Option<Seq<char>> {
    match content_section(html) {
        Some(section) => regex_replace_all(script_pattern(), section, ""@),
        None => None,
    }
}

/// `html2md` converts the page's script-free chapter section without
/// panicking (where the page has such a section).
pub open spec fn converts_to_markdown(html: Seq<char>) -> bool {
    match script_free_section(html) {
        Some(stripped) => html_to_markdown(stripped) is Some,
        None => true,
    }
}

/// A chapter's text as markdown: the chapter section with inline scripts
/// removed, converted to markdown and tidied. `None` where there is no
/// section, or where `html2md` panics on it.
pub open spec fn content_of(html: Seq<char>) -> Option<Seq<char>> {
    match script_free_section(html) {
        Some(stripped) => match html_to_markdown(stripped) {
            Some(md) => Some(tidy_markdown(md)),
            None => None,
        },
        None => None,
    }
}

/// Tidies the markdown of a chapter (see `tidy_markdown`).
pub fn tidy_chapter_markdown(md: &str) -> (r: String)
    ensures
        r@ == tidy_markdown(md@),
{
    proof {
        reveal_strlit("\\>");
        reveal_strlit("*This chapter upload first at **Novel Fire***");
    }
    let m = chars_of(md);
    let t1 = trim_exec(m.as_slice());
    let t2 = strip_prefixes_exec(t1.as_slice(), chars_of("\\>").as_slice());
    let t3 = trim_exec(t2.as_slice());
    let t4 = replace_exec(
        t3.as_slice(),
        chars_of("*This chapter upload first at **Novel Fire***").as_slice(),
        chars_of("").as_slice(),
    );
    string_of(t4.as_slice())
}

/// The chapter section of a chapter page, as a string slice.
fn content_section_str<'a>(html: &'a str) -> (r: Option<&'a str>)
    ensures
        match r {
            Some(s) => content_section(html@) == Some(s@),
            None => content_section(html@) is None,
        },
{
    proof {
        lemma_content_markers(html@);
    }
    get_substring_between(html, "itemprop=\"description\"", "chapternav")
}

/// A chapter's text as markdown, read from its page.
pub fn parse_content(html: &str) -> (content: String)
    requires
        content_section(html@) is Some,
        converts_to_markdown(html@),
    ensures
        content_of(html@) == Some(content@),
{
    let section = match content_section_str(html) {
        Some(s) => s,
        None => "",
    };
    let stripped = match regex_replace("<script>.*?</script>", section, "") {
        Some(s) => s,
        None => String::new(),
    };
    let md = markdown_of(stripped.as_str());
    tidy_chapter_markdown(md.as_str())
}

/// A chapter's text as markdown, or `None` where the page has no chapter
/// section.
pub fn try_parse_content(html: &str) -> (r: Option<String>)
    requires
        converts_to_markdown(html@),
    ensures
        match r {
            Some(content) => content_of(html@) == Some(content@),
            None => content_of(html@) is None,
        },
        r is None <==> content_section(html@) is None,
{
    match content_section_str(html) {
        Some(_) => Some(parse_content(html)),
        None => None,
    }
}

} // verus!
