//! Turning an `href` value found on a page into a full `https://` address.

use vstd::prelude::*;

use crate::text::{
    chars_of, is_white_space, lemma_https_url_has_domain, lemma_trim_keeps_prefix, push_all, starts_with, starts_with_exec,
    trim, trim_exec, url_domain, url_domain_exec,
};

verus! {

/// An `href` value made absolute: a value that already starts with
/// `https://` is trimmed; any other is trimmed and put after `https://` and
/// the host of the page it was found on. `None` where that page's address has
/// no host piece, so indexing the third piece would panic.
pub open spec fn absolute_link(href: Seq<char>, page_url: Seq<char>) -> Option<Seq<char>> {
    if starts_with(href, "https://"@) {
        Some(trim(href))
    } else {
        match url_domain(page_url) {
            Some(host) => Some("https://"@ + host + trim(href)),
            None => None,
        }
    }
}

/// Every absolute link starts with `https://`.
pub proof fn lemma_absolute_link_is_https(href: Seq<char>, page_url: Seq<char>)
    requires
        absolute_link(href, page_url) is Some,
    ensures
        starts_with(absolute_link(href, page_url)->0, "https://"@),
{
    reveal_strlit("https://");
    let p = "https://"@;
    if starts_with(href, p) {
        assert forall|k: int| 0 <= k < p.len() implies !is_white_space(#[trigger] p[k]) by {}
        lemma_trim_keeps_prefix(href, p);
    } else {
        let host = url_domain(page_url)->0;
        let r = p + host + trim(href);
        assert(r.subrange(0, p.len() as int) =~= p);
    }
}

/// Links found on a page whose address starts with `https://` can always be
/// made absolute.
pub proof fn lemma_absolute_link_defined(href: Seq<char>, page_url: Seq<char>)
    requires
        starts_with(page_url, "https://"@),
    ensures
        absolute_link(href, page_url) is Some,
{
    lemma_https_url_has_domain(page_url);
}

/// `absolute_link` on characters.
pub fn absolute_link_exec(href: &[char], page_url: &[char]) -> (r: Option<Vec<char>>)
    ensures
        match r {
            Some(v) => absolute_link(href@, page_url@) == Some(v@),
            None => absolute_link(href@, page_url@) is None,
        },
{
    let https = chars_of("https://");
    if starts_with_exec(href, https.as_slice()) {
        Some(trim_exec(href))
    } else {
        match url_domain_exec(page_url) {
            Some(host) => {
                let mut out = https;
                push_all(&mut out, host.as_slice());
                let trimmed = trim_exec(href);
                push_all(&mut out, trimmed.as_slice());
                Some(out)
            },
            None => None,
        }
    }
}

} // verus!
