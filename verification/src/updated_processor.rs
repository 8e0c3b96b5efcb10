//! The inline listing of a book: the recently updated pages as a markdown
//! list, put in place of a marker in the text of the pages.

use vstd::prelude::*;
use vstd::string::StringExecFns;

use crate::config::{
    integer_setting, setting_or, BookSettings, ConfigError, DEFAULT_MINIMUM_COMMITS,
    DEFAULT_TARGET_ENTRIES,
};
use crate::post::{Post, PostModel};
use crate::post_finder::{search_result, PostFinder, SearchError, TrackedChapter};
use crate::text::{chars_of, optional_text, same_text};
use crate::time::{date_text, utc_date};

verus! {

/// The marker in the text of a page that the listing takes the place of.
pub const MARKER: &'static str = "{{#recently_updated}}";

/// `token` stands in `s` at position `pos`.
pub open spec fn starts_at(s: Seq<char>, pos: int, token: Seq<char>) -> bool {
    0 <= pos && pos + token.len() <= s.len() && s.subrange(pos, pos + token.len()) == token
}

/// `token` stands somewhere in `s`.
pub open spec fn occurs(s: Seq<char>, token: Seq<char>) -> bool {
    exists|pos: int| starts_at(s, pos, token)
}

/// The text of `s` from `pos` on, with `replacement` in place of each
/// occurrence of `token`. The occurrences are taken from left to right and
/// do not overlap; an empty token occurs nowhere.
pub open spec fn substituted_from(
    s: Seq<char>,
    pos: int,
    token: Seq<char>,
    replacement: Seq<char>,
) -> Seq<char>
    decreases s.len() - pos,
{
    if pos < 0 || pos >= s.len() {
        Seq::empty()
    } else if token.len() > 0 && starts_at(s, pos, token) {
        replacement + substituted_from(s, pos + token.len(), token, replacement)
    } else {
        seq![s[pos]] + substituted_from(s, pos + 1, token, replacement)
    }
}

/// `s` with `replacement` in place of each occurrence of `token`.
pub open spec fn substituted(s: Seq<char>, token: Seq<char>, replacement: Seq<char>) -> Seq<char> {
    substituted_from(s, 0, token, replacement)
}

/// Text without the token, from `pos` on, stays as it is.
pub proof fn lemma_substituted_without(
    s: Seq<char>,
    pos: int,
    token: Seq<char>,
    replacement: Seq<char>,
)
    requires
        0 <= pos <= s.len(),
        forall|p: int| pos <= p ==> !starts_at(s, p, token),
    ensures
        substituted_from(s, pos, token, replacement) == s.skip(pos),
    decreases s.len() - pos,
{
    if pos < s.len() {
        lemma_substituted_without(s, pos + 1, token, replacement);
        assert(seq![s[pos]] + s.skip(pos + 1) =~= s.skip(pos));
    } else {
        assert(s.skip(pos) =~= Seq::<char>::empty());
    }
}

/// What follows a prefix is substituted as if it stood alone.
pub proof fn lemma_substituted_after(
    front: Seq<char>,
    rest: Seq<char>,
    pos: int,
    token: Seq<char>,
    replacement: Seq<char>,
)
    requires
        0 <= pos <= rest.len(),
    ensures
        substituted_from(front + rest, front.len() + pos, token, replacement) == substituted_from(
            rest,
            pos,
            token,
            replacement,
        ),
    decreases rest.len() - pos,
{
    let s = front + rest;
    let at = front.len() + pos;
    if pos < rest.len() {
        assert(s[at] == rest[pos]);
        lemma_starts_at_after(front, rest, pos, token);
        if token.len() > 0 && starts_at(rest, pos, token) {
            lemma_substituted_after(front, rest, pos + token.len(), token, replacement);
        } else {
            lemma_substituted_after(front, rest, pos + 1, token, replacement);
        }
    }
}

/// The token stands in what follows a prefix where it stands in the whole,
/// counted from the end of the prefix.
pub proof fn lemma_starts_at_after(front: Seq<char>, rest: Seq<char>, pos: int, token: Seq<char>)
    requires
        0 <= pos,
    ensures
        starts_at(front + rest, front.len() + pos, token) == starts_at(rest, pos, token),
{
    let s = front + rest;
    let at = front.len() + pos;
    if pos + token.len() <= rest.len() {
        assert(s.subrange(at, at + token.len()) =~= rest.subrange(pos, pos + token.len()));
    }
}

/// Text up to the first occurrence of the token is kept, the occurrence is
/// replaced, and the rest is substituted on its own.
pub proof fn lemma_substituted_first(
    before: Seq<char>,
    rest: Seq<char>,
    token: Seq<char>,
    replacement: Seq<char>,
)
    requires
        token.len() > 0,
        forall|p: int| 0 <= p < before.len() ==> !starts_at(before + token + rest, p, token),
    ensures
        substituted(before + token + rest, token, replacement) == before + replacement
            + substituted(rest, token, replacement),
{
    let s = before + token + rest;
    lemma_substituted_prefix(before, rest, 0, token, replacement);
    assert(before.skip(0) =~= before);
}

/// The step of [`lemma_substituted_first`], from a position in the text
/// before the occurrence.
proof fn lemma_substituted_prefix(
    before: Seq<char>,
    rest: Seq<char>,
    pos: int,
    token: Seq<char>,
    replacement: Seq<char>,
)
    requires
        token.len() > 0,
        0 <= pos <= before.len(),
        forall|p: int| 0 <= p < before.len() ==> !starts_at(before + token + rest, p, token),
    ensures
        substituted_from(before + token + rest, pos, token, replacement) == before.skip(pos)
            + replacement + substituted(rest, token, replacement),
    decreases before.len() - pos,
{
    let s = before + token + rest;
    if pos < before.len() {
        lemma_substituted_prefix(before, rest, pos + 1, token, replacement);
        assert(s[pos] == before[pos]);
        assert(seq![before[pos]] + before.skip(pos + 1) =~= before.skip(pos));
        assert(seq![s[pos]] + (before.skip(pos + 1) + replacement + substituted(
            rest,
            token,
            replacement,
        )) =~= before.skip(pos) + replacement + substituted(rest, token, replacement));
    } else {
        assert(s.subrange(pos, pos + token.len()) =~= token);
        assert(starts_at(s, pos, token));
        lemma_substituted_after(before + token, rest, 0, token, replacement);
        assert(before.skip(pos) =~= Seq::<char>::empty());
        assert(before.skip(pos) + replacement + substituted(rest, token, replacement)
            =~= replacement + substituted(rest, token, replacement));
    }
}

/// A text in which the token stands twice, and nowhere else, has the
/// replacement in both places, and the text before, between and after them
/// as it was.
pub proof fn lemma_substituted_twice(
    before: Seq<char>,
    between: Seq<char>,
    after: Seq<char>,
    token: Seq<char>,
    replacement: Seq<char>,
)
    requires
        token.len() > 0,
        forall|p: int|
            starts_at(before + token + between + token + after, p, token) ==> p == before.len()
                || p == before.len() + token.len() + between.len(),
    ensures
        substituted(before + token + between + token + after, token, replacement) == before
            + replacement + between + replacement + after,
{
    let s = before + token + between + token + after;
    let tail = between + token + after;
    assert(s =~= before + token + tail);
    assert(tail =~= (between + token) + after);
    assert forall|p: int| 0 <= p < between.len() implies !starts_at(tail, p, token) by {
        lemma_starts_at_after(before + token, tail, p, token);
    }
    assert forall|p: int| 0 <= p implies !starts_at(after, p, token) by {
        lemma_starts_at_after(between + token, after, p, token);
        lemma_starts_at_after(before + token, tail, between.len() + token.len() + p, token);
    }
    lemma_substituted_first(before, tail, token, replacement);
    lemma_substituted_first(between, after, token, replacement);
    lemma_substituted_without(after, 0, token, replacement);
    assert(after.skip(0) =~= after);
    assert(before + replacement + (between + replacement + after) =~= before + replacement
        + between + replacement + after);
}

/// Whether `token` stands in `s` at position `pos`.
pub fn token_at(s: &Vec<char>, pos: usize, token: &Vec<char>) -> (r: bool)
    requires
        pos <= s.len(),
    ensures
        r == starts_at(s@, pos as int, token@),
{
    let m = token.len();
    if m > s.len() - pos {
        return false;
    }
    let ghost part = s@.subrange(pos as int, pos + m);
    let mut i: usize = 0;
    while i < m
        invariant
            m == token.len(),
            pos + m <= s.len(),
            i <= m,
            part == s@.subrange(pos as int, pos + m),
            forall|k: int| 0 <= k < i ==> part[k] == token@[k],
        decreases m - i,
    {
        if s[pos + i] != token[i] {
            assert(part[i as int] != token@[i as int]);
            return false;
        }
        i += 1;
    }
    assert(part =~= token@);
    true
}

/// Whether `token` stands anywhere in `s`.
pub fn token_occurs(s: &Vec<char>, token: &Vec<char>) -> (r: bool)
    ensures
        r == occurs(s@, token@),
{
    let mut pos: usize = 0;
    while pos < s.len()
        invariant
            pos <= s.len(),
            forall|p: int| 0 <= p < pos ==> !starts_at(s@, p, token@),
        decreases s.len() - pos,
    {
        if token_at(s, pos, token) {
            return true;
        }
        pos += 1;
    }
    token_at(s, pos, token)
}

/// Puts `replacement` in place of each occurrence of `token` in `content`.
/// The text around the occurrences is kept as it is.
pub fn substitute(content: &str, token: &str, replacement: &str) -> (r: String)
    ensures
        r@ == substituted(content@, token@, replacement@),
{
    let s = chars_of(content);
    let t = chars_of(token);
    let n = s.len();
    let mut r = String::new();
    let mut pos: usize = 0;
    assert(r@ + substituted_from(s@, 0, t@, replacement@) =~= substituted(
        s@,
        t@,
        replacement@,
    ));
    while pos < n
        invariant
            n == s.len(),
            pos <= n,
            r@ + substituted_from(s@, pos as int, t@, replacement@) == substituted(
                s@,
                t@,
                replacement@,
            ),
        decreases n - pos,
    {
        let ghost before = r@;
        if t.len() > 0 && token_at(&s, pos, &t) {
            r.append(replacement);
            assert(before + (replacement@ + substituted_from(
                s@,
                pos + t.len(),
                t@,
                replacement@,
            )) =~= r@ + substituted_from(s@, pos + t.len(), t@, replacement@));
            pos += t.len();
        } else {
            r.push(s[pos]);
            assert(before + (seq![s@[pos as int]] + substituted_from(
                s@,
                pos + 1,
                t@,
                replacement@,
            )) =~= r@ + substituted_from(s@, pos + 1, t@, replacement@));
            pos += 1;
        }
    }
    assert(r@ + Seq::<char>::empty() =~= r@);
    r
}

/// A line of the listing: the title as a link to the page from the root of
/// the site, and the date of the last modification.
pub open spec fn list_line(title: Seq<char>, path: Seq<char>, date: Seq<char>) -> Seq<char> {
    "- ["@ + title + "](/"@ + path + ") ("@ + date + ")"@
}

/// The line of a post in the listing; there is none where the calendar does
/// not reach the time of its last modification.
pub open spec fn list_link_of(post: PostModel) -> Option<Seq<char>> {
    match utc_date(post.last_modified.seconds as int) {
        Some((year, month, day)) => Some(
            list_line(post.title, post.path, date_text(year, month, day)),
        ),
        None => None,
    }
}

/// The listing of the posts: a line for each, in their order, each behind
/// the prefix and ended by a line feed. There is none where a post has no
/// line.
pub open spec fn markdown_of(posts: Seq<PostModel>, prefix: Seq<char>) -> Option<Seq<char>>
    decreases posts.len(),
{
    if posts.len() == 0 {
        Some(Seq::empty())
    } else {
        match (markdown_of(posts.drop_last(), prefix), list_link_of(posts.last())) {
            (Some(before), Some(line)) => Some(before + prefix + line + seq!['\n']),
            _ => None,
        }
    }
}

/// Writes a line of the listing.
pub fn format_list_line(title: &str, path: &str, date: &str) -> (line: String)
    ensures
        line@ == list_line(title@, path@, date@),
{
    let mut line = String::from_str("- [");
    line.append(title);
    line.append("](/");
    line.append(path);
    line.append(") (");
    line.append(date);
    line.append(")");
    line
}

impl Post {
    /// The line of the post in the listing.
    pub fn list_link(&self) -> (line: Option<String>)
        ensures
            optional_text(line) == list_link_of(self@),
    {
        match self.last_modified.utc_date_text() {
            Some(date) => Some(
                format_list_line(self.title.as_str(), self.path.as_str(), date.as_str()),
            ),
            None => None,
        }
    }
}

/// The settings of the listing.
#[derive(Debug)]
pub struct UpdatedConfig {
    /// The directory of the book's sources.
    pub content_path: String,
    /// The root directory of the book, which holds the repository.
    pub root_path: String,
    /// The number of lines aimed at; 0 lists every post.
    pub target_number_of_entries: i64,
}

impl UpdatedConfig {
    /// What is wrong with the settings, if anything.
    pub open spec fn error_in(settings: BookSettings) -> Option<ConfigError> {
        if !settings.has_section {
            Some(ConfigError::MissingSection)
        } else if setting_or(settings.target_number_of_entries, DEFAULT_TARGET_ENTRIES) < -1 {
            Some(ConfigError::InvalidTargetEntries)
        } else {
            None
        }
    }

    /// Reads the settings of the listing. Where no number of entries is
    /// configured, ten are aimed at.
    pub fn from_book_config(settings: BookSettings) -> (r: Result<UpdatedConfig, ConfigError>)
        ensures
            match r {
                Ok(config) => {
                    &&& Self::error_in(settings) is None
                    &&& config.content_path == settings.content_path
                    &&& config.root_path == settings.root_path
                    &&& config.target_number_of_entries == setting_or(
                        settings.target_number_of_entries,
                        DEFAULT_TARGET_ENTRIES,
                    )
                    &&& config.target_number_of_entries >= -1
                },
                Err(error) => Self::error_in(settings) == Some(error),
            },
    {
        if !settings.has_section {
            return Err(ConfigError::MissingSection);
        }
        let target_number_of_entries = integer_setting(
            settings.target_number_of_entries,
            DEFAULT_TARGET_ENTRIES,
        );
        if target_number_of_entries < -1 {
            return Err(ConfigError::InvalidTargetEntries);
        }
        Ok(
            UpdatedConfig {
                content_path: settings.content_path,
                root_path: settings.root_path,
                target_number_of_entries,
            },
        )
    }
}

/// Why no listing came out of a run.
#[derive(Clone, Copy, Debug, PartialEq, Eq, Structural)]
pub enum UpdatedError {
    /// The search for posts failed.
    Search(SearchError),
    /// No post lies within the window to list.
    NothingSelected,
    /// The calendar does not reach the time at which a post was modified.
    DateOutOfRange,
}

/// The text of a page with the listing of the posts in place of each marker.
/// A page without a marker is left as it is, whatever the posts; a page with
/// one has no text where the listing cannot be written.
pub open spec fn page_of(content: Seq<char>, posts: Seq<PostModel>) -> Option<Seq<char>> {
    if occurs(content, MARKER@) {
        match markdown_of(posts, Seq::empty()) {
            Some(listing) => Some(substituted(content, MARKER@, listing)),
            None => None,
        }
    } else {
        Some(content)
    }
}

/// The texts of the pages, each with the listing in place of its markers;
/// none where one of them cannot be written.
pub open spec fn pages_of(contents: Seq<Seq<char>>, posts: Seq<PostModel>) -> Option<
    Seq<Seq<char>>,
> {
    if forall|i: int| 0 <= i < contents.len() ==> page_of(#[trigger] contents[i], posts) is Some {
        Some(Seq::new(contents.len(), |i: int| page_of(contents[i], posts)->0))
    } else {
        None
    }
}

/// The marker is not empty.
pub proof fn lemma_marker()
    ensures
        MARKER@.len() == 21,
{
    reveal_strlit("{{#recently_updated}}");
}

/// The preprocessor that puts the listing into the pages of a book.
#[derive(Clone, Copy, Debug)]
pub struct UpdatedProcessor;

impl UpdatedProcessor {
    /// The name under which the host knows the preprocessor.
    pub fn name(&self) -> (name: &'static str)
        ensures
            name@ == "git-updated"@,
    {
        "git-updated"
    }

    /// Whether the preprocessor runs for a renderer: for `html` only.
    pub fn supports_renderer(&self, renderer: &str) -> (r: bool)
        ensures
            r == (renderer@ == "html"@),
    {
        same_text(renderer, "html")
    }

    /// What a run gives: the texts of the pages with the listing of the
    /// posts that the search selects, or the reason why there is none. A
    /// search that selects no post leaves nothing to list, and fails the
    /// run.
    pub open spec fn run_result(
        config: &UpdatedConfig,
        finder: &PostFinder,
        chapters: Seq<TrackedChapter>,
        contents: Seq<Seq<char>>,
    ) -> Result<Seq<Seq<char>>, UpdatedError> {
        match search_result(
            chapters,
            finder.commit_times@,
            None,
            config.target_number_of_entries as int,
            DEFAULT_MINIMUM_COMMITS as int,
        ) {
            Err(error) => Err(UpdatedError::Search(error)),
            Ok(posts) => if posts.len() == 0 {
                Err(UpdatedError::NothingSelected)
            } else {
                match pages_of(contents, posts) {
                    Some(pages) => Ok(pages),
                    None => Err(UpdatedError::DateOutOfRange),
                }
            },
        }
    }

    /// Puts the listing into the pages of a book: finds the posts of its
    /// chapters, selects those to list, and rewrites the text of each page.
    /// The pages come back in the order in which they were given.
    pub fn run(
        &self,
        config: &UpdatedConfig,
        finder: &PostFinder,
        chapters: Vec<TrackedChapter>,
        contents: &Vec<String>,
    ) -> (r: Result<Vec<String>, UpdatedError>)
        ensures
            match r {
                Ok(pages) => Self::run_result(config, finder, chapters@, contents.deep_view())
                    == Ok::<Seq<Seq<char>>, UpdatedError>(pages.deep_view()),
                Err(error) => Self::run_result(config, finder, chapters@, contents.deep_view())
                    == Err::<Seq<Seq<char>>, UpdatedError>(error),
            },
    {
        let posts = match finder.search(
            chapters,
            None,
            config.target_number_of_entries,
            DEFAULT_MINIMUM_COMMITS,
        ) {
            Ok(posts) => posts,
            Err(error) => {
                return Err(UpdatedError::Search(error));
            },
        };
        if posts.len() == 0 {
            return Err(UpdatedError::NothingSelected);
        }
        let mut pages: Vec<String> = Vec::new();
        let mut i: usize = 0;
        while i < contents.len()
            invariant
                i <= contents.len(),
                pages.len() == i,
                posts.len() > 0,
                search_result(
                    chapters@,
                    finder.commit_times@,
                    None,
                    config.target_number_of_entries as int,
                    DEFAULT_MINIMUM_COMMITS as int,
                ) == Ok::<Seq<PostModel>, SearchError>(posts.deep_view()),
                forall|k: int|
                    0 <= k < i ==> page_of(#[trigger] contents.deep_view()[k], posts.deep_view())
                        == Some(pages@[k]@),
            decreases contents.len() - i,
        {
            assert(contents.deep_view()[i as int] == contents@[i as int]@);
            match self.process_chapter(contents[i].as_str(), &posts) {
                Some(page) => {
                    pages.push(page);
                },
                None => {
                    assert(page_of(contents.deep_view()[i as int], posts.deep_view()) is None);
                    return Err(UpdatedError::DateOutOfRange);
                },
            }
            i += 1;
        }
        assert(pages.deep_view() =~= pages_of(contents.deep_view(), posts.deep_view())->0);
        Ok(pages)
    }

    /// The text of a page with the listing of the posts in place of each
    /// marker.
    pub fn process_chapter(&self, content: &str, posts: &Vec<Post>) -> (r: Option<String>)
        ensures
            optional_text(r) == page_of(content@, posts.deep_view()),
    {
        let s = chars_of(content);
        let marker = chars_of(MARKER);
        if !token_occurs(&s, &marker) {
            return Some(String::from_str(content));
        }
        match self.generate_markdown(posts, "") {
            Some(listing) => {
                proof {
                    reveal_strlit("");
                    assert(""@ =~= Seq::<char>::empty());
                }
                Some(substitute(content, MARKER, listing.as_str()))
            },
            None => {
                proof {
                    reveal_strlit("");
                    assert(""@ =~= Seq::<char>::empty());
                }
                None
            },
        }
    }

    /// The listing of the posts: a line for each, behind the prefix.
    pub fn generate_markdown(&self, posts: &Vec<Post>, indentation_prefix: &str) -> (r: Option<
        String,
    >)
        ensures
            optional_text(r) == markdown_of(posts.deep_view(), indentation_prefix@),
    {
        let ghost all = posts.deep_view();
        let mut listing = String::new();
        let mut i: usize = 0;
        assert(all.take(0) =~= Seq::<PostModel>::empty());
        while i < posts.len()
            invariant
                i <= posts.len(),
                all == posts.deep_view(),
                markdown_of(all.take(i as int), indentation_prefix@) == Some(listing@),
            decreases posts.len() - i,
        {
            assert(all.take(i + 1).drop_last() =~= all.take(i as int));
            assert(all.take(i + 1).last() == posts@[i as int]@);
            match posts[i].list_link() {
                Some(line) => {
                    listing.append(indentation_prefix);
                    listing.append(line.as_str());
                    listing.push('\n');
                },
                None => {
                    proof {
                        lemma_markdown_of_none(all, indentation_prefix@, i as int);
                    }
                    return None;
                },
            }
            i += 1;
        }
        assert(all.take(posts.len() as int) =~= all);
        Some(listing)
    }
}

/// A post without a line leaves no listing.
pub proof fn lemma_markdown_of_none(posts: Seq<PostModel>, prefix: Seq<char>, i: int)
    requires
        0 <= i < posts.len(),
        list_link_of(posts[i]) is None,
    ensures
        markdown_of(posts, prefix) is None,
    decreases posts.len(),
{
    if i < posts.len() - 1 {
        lemma_markdown_of_none(posts.drop_last(), prefix, i);
    }
}

} // verus!
