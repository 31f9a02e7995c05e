//! The book's files: where each chapter is saved, what a chapter file
//! holds, the summary that lists the chapters, and the addresses of the
//! numbered contents pages.

use vstd::prelude::*;

use crate::number::{
    decimal, decimal_chars, lemma_signed_decimal_injective, signed_decimal, signed_decimal_chars,
};
use crate::text::{chars_of, push_all, string_of};

verus! {

/// `./res/src/{n}.md`: the file chapter `n` is saved to.
pub open spec fn chapter_file(n: int) -> Seq<char> {
    "./res/src/"@ + signed_decimal(n) + ".md"@
}

/// The file chapter `n` is saved to.
pub fn chapter_file_path(n: u64) -> (path: String)
    ensures
        path@ == chapter_file(n as int),
{
    let mut v = chars_of("./res/src/");
    push_all(&mut v, decimal_chars(n).as_slice());
    push_all(&mut v, chars_of(".md").as_slice());
    string_of(v.as_slice())
}

/// The file chapter `n` is saved to, for the chapter numbers of the
/// chapter-by-chapter walk.
pub(crate) fn chapter_file_path_i32(n: i32) -> (path: String)
    ensures
        path@ == chapter_file(n as int),
{
    let mut v = chars_of("./res/src/");
    push_all(&mut v, signed_decimal_chars(n).as_slice());
    push_all(&mut v, chars_of(".md").as_slice());
    string_of(v.as_slice())
}

/// Different chapters are saved to different files.
pub proof fn lemma_chapter_files_distinct(a: int, b: int)
    requires
        a != b,
    ensures
        chapter_file(a) != chapter_file(b),
{
    reveal_strlit("./res/src/");
    reveal_strlit(".md");
    if chapter_file(a) == chapter_file(b) {
        let fa = chapter_file(a);
        let fb = chapter_file(b);
        assert("./res/src/"@.len() == 10);
        assert(".md"@.len() == 3);
        assert(fa.len() == 13 + signed_decimal(a).len());
        assert(fb.len() == 13 + signed_decimal(b).len());
        assert(signed_decimal(a).len() == signed_decimal(b).len());
        assert(fa.subrange(10, 10 + signed_decimal(a).len() as int) =~= signed_decimal(a));
        assert(fb.subrange(10, 10 + signed_decimal(b).len() as int) =~= signed_decimal(b));
        lemma_signed_decimal_injective(a, b);
    }
}

/// `# {title}\n \n{content}`: what a chapter file holds.
pub open spec fn chapter_page(title: Seq<char>, content: Seq<char>) -> Seq<char> {
    "# "@ + title + "\n \n"@ + content
}

/// What the file of a chapter with this title and text holds.
pub fn chapter_markdown(title: &str, content: &str) -> (page: String)
    ensures
        page@ == chapter_page(title@, content@),
{
    let mut v = chars_of("# ");
    push_all(&mut v, chars_of(title).as_slice());
    push_all(&mut v, chars_of("\n \n").as_slice());
    push_all(&mut v, chars_of(content).as_slice());
    string_of(v.as_slice())
}

/// `- [Chapter {k}](./{k}.md)\n`: the summary's line for chapter `k`.
pub open spec fn summary_line(k: nat) -> Seq<char> {
    "- [Chapter "@ + decimal(k) + "](./"@ + decimal(k) + ".md)\n"@
}

/// The summary of a book of `count` chapters: one line for each of the
/// chapters `1` to `count`, in order.
pub open spec fn summary(count: nat) -> Seq<char>
    decreases count,
{
    if count == 0 {
        Seq::empty()
    } else {
        summary((count - 1) as nat) + summary_line(count)
    }
}

/// The text of `SUMMARY.md` for a book of `count` chapters.
pub fn summary_lines(count: u64) -> (text: String)
    ensures
        text@ == summary(count as nat),
{
    let mut v: Vec<char> = Vec::new();
    let mut k: u64 = 0;
    while k < count
        invariant
            k <= count,
            v@ == summary(k as nat),
        decreases count - k,
    {
        k += 1;
        let number = decimal_chars(k);
        push_all(&mut v, chars_of("- [Chapter ").as_slice());
        push_all(&mut v, number.as_slice());
        push_all(&mut v, chars_of("](./").as_slice());
        push_all(&mut v, number.as_slice());
        push_all(&mut v, chars_of(".md)\n").as_slice());
        assert(v@ =~= summary(k as nat));
    }
    string_of(v.as_slice())
}

/// `{url}?page={page}`: the address of a numbered contents page.
pub open spec fn contents_page(url: Seq<char>, page: nat) -> Seq<char> {
    url + "?page="@ + decimal(page)
}

/// The address of contents page number `page` of the contents at `url`.
pub fn contents_page_url(url: &str, page: u64) -> (address: String)
    ensures
        address@ == contents_page(url@, page as nat),
{
    let mut v = chars_of(url);
    push_all(&mut v, chars_of("?page=").as_slice());
    push_all(&mut v, decimal_chars(page).as_slice());
    string_of(v.as_slice())
}

} // verus!
