//! The address under which a post is published.

use vstd::prelude::*;
use vstd::string::StringExecFns;

use crate::post::Post;
use crate::text::{
    chars_of, ends_with, has_suffix, optional_text, replace_suffix, string_of,
    with_suffix_replaced,
};

verus! {

/// The serialization of the absolute URL that `url::Url::parse` reads from
/// `text`, or nothing where it reads none.
pub uninterp spec fn parsed_url(text: Seq<char>) -> Option<Seq<char>>;

/// The serialization of the URL that `url::Url::join` resolves `reference`
/// to, against the URL that `url::Url::parse` reads from `base`; nothing
/// where either fails.
pub uninterp spec fn joined_url(base: Seq<char>, reference: Seq<char>) -> Option<Seq<char>>;

/// Reads an absolute URL with `url::Url::parse` and hands back its
/// serialization. The parser's result is a function of the text alone and
/// is named, not described.
#[verifier::external_body]
pub(crate) fn parse_url(text: &str) -> (url: Option<String>)
    ensures
        optional_text(url) == parsed_url(text@),
{
    match url::Url::parse(text) {
        Ok(parsed) => Some(String::from(parsed)),
        Err(_) => None,
    }
}

/// Resolves `reference` against the base URL with `url::Url::join`, after
/// reading the base with `url::Url::parse`, and hands back the serialization
/// of the result. It is a function of the two texts alone and is named, not
/// described.
#[verifier::external_body]
pub(crate) fn join_url(base: &str, reference: &str) -> (url: Option<String>)
    ensures
        optional_text(url) == joined_url(base@, reference@),
{
    match url::Url::parse(base) {
        Ok(parsed) => match parsed.join(reference) {
            Ok(joined) => Some(String::from(joined)),
            Err(_) => None,
        },
        Err(_) => None,
    }
}

/// The address names a file called `README.md`: it is that name, or ends
/// with that name behind a slash.
pub open spec fn names_readme(source: Seq<char>) -> bool {
    source == "README.md"@ || ends_with(source, "/README.md"@)
}

/// The address of the page rendered from a source: a file named `README.md`
/// becomes `index.html` in its directory, and of any other file the
/// extension `.md` becomes `.html`. Any other address is the page's own.
pub open spec fn page_url(source: Seq<char>) -> Seq<char> {
    if names_readme(source) {
        source.take(source.len() - 9) + "index.html"@
    } else {
        with_suffix_replaced(source, ".md"@, ".html"@)
    }
}

/// What the rewriting does, case by case: the address of a file named
/// `README.md` ends with `index.html` in place of that name, any other
/// address that ends with `.md` ends with `.html` instead, and an address
/// with any other ending is left unchanged. A file whose name only ends with
/// `README.md` is one of the others.
pub proof fn lemma_page_url(source: Seq<char>)
    ensures
        names_readme(source) ==> ends_with(source, "README.md"@) && page_url(source)
            == source.take(source.len() - 9) + "index.html"@,
        ends_with(source, ".md"@) && !names_readme(source) ==> page_url(source) == source.take(
            source.len() - 3,
        ) + ".html"@,
        !ends_with(source, ".md"@) ==> page_url(source) == source,
        ends_with(source, "README.md"@) && source.len() > 9 && source[source.len() - 10] != '/'
            ==> !names_readme(source),
{
    reveal_strlit("README.md");
    reveal_strlit("/README.md");
    reveal_strlit(".md");
    let readme = "README.md"@;
    let slashed = "/README.md"@;
    let md = ".md"@;
    let n = source.len() as int;
    if ends_with(source, slashed) {
        let tail = source.subrange(n - 10, n);
        assert(source.subrange(n - 9, n) =~= tail.subrange(1, 10));
        assert(tail.subrange(1, 10) =~= readme);
        assert(source.subrange(n - 3, n) =~= tail.subrange(7, 10));
        assert(tail.subrange(7, 10) =~= md);
        assert(source[n - 10] == tail[0]);
    }
    if source == readme {
        assert(source.subrange(0, 9) =~= readme);
        assert(source.subrange(6, 9) =~= md);
    }
}

/// Rewrites the address of a source to that of its rendered page.
pub fn rewrite_page_suffix(url: String) -> (page: String)
    ensures
        page@ == page_url(url@),
{
    let chars = chars_of(url.as_str());
    let readme = chars_of("README.md");
    let slashed = chars_of("/README.md");
    proof {
        reveal_strlit("README.md");
        reveal_strlit("/README.md");
    }
    let is_readme = chars.len() == readme.len() && has_suffix(&chars, &readme);
    assert(is_readme == (chars@ == readme@)) by {
        if chars.len() == readme.len() {
            assert(chars@.subrange(0, chars@.len() as int) =~= chars@);
        }
    }
    if is_readme || has_suffix(&chars, &slashed) {
        let mut page = string_of(&chars, 0, chars.len() - 9);
        page.append("index.html");
        page
    } else {
        replace_suffix(url, ".md", ".html")
    }
}

impl Post {
    /// The address of the post's page: its output path, resolved against
    /// the base URL where one is given, and rewritten to the address of the
    /// rendered page. With a base URL there is no address where the path cannot
    /// be resolved against it.
    pub fn source_url(&self, base_url: Option<&str>) -> (url: Option<String>)
        ensures
            optional_text(url) == match base_url {
                Some(base) => match joined_url(base@, self.path@) {
                    Some(joined) => Some(page_url(joined)),
                    None => None,
                },
                None => Some(page_url(self.path@)),
            },
    {
        match base_url {
            Some(base) => match join_url(base, self.path.as_str()) {
                Some(joined) => Some(rewrite_page_suffix(joined)),
                None => None,
            },
            None => Some(rewrite_page_suffix(self.path.clone())),
        }
    }
}

} // verus!
