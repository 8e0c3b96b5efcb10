//! Finding the posts of a book: one post for each chapter whose history is
//! known, ranked and cut down to the window to publish.

use vstd::prelude::*;

use crate::author::{authors_of, collect_authors, BlameRecord};
use crate::post::{Post, PostModel};
use crate::preview::{preview_source, preview_text};
use crate::selection::{select, select_result, sorted_by_recency, SelectError};
use crate::text::optional_text;
use crate::time::Timestamp;

verus! {

/// The markup that `pulldown-cmark` renders a markdown source to, with the
/// strikethrough extension switched on.
pub uninterp spec fn markdown_html(source: Seq<char>) -> Seq<char>;

/// Renders markdown to markup: `pulldown_cmark::Parser::new_ext` with
/// `Options::ENABLE_STRIKETHROUGH`, written out by
/// `pulldown_cmark::html::push_html`. The result is a function of the source
/// alone and is named, not described; a source without text parses to no
/// event, so nothing is written for it.
#[verifier::external_body]
pub(crate) fn render_markdown(source: &str) -> (html: String)
    ensures
        html@ == markdown_html(source@),
        source@.len() == 0 ==> html@.len() == 0,
{
    let mut options = pulldown_cmark::Options::empty();
    options.insert(pulldown_cmark::Options::ENABLE_STRIKETHROUGH);
    let parser = pulldown_cmark::Parser::new_ext(source, options);
    let mut html = String::new();
    pulldown_cmark::html::push_html(&mut html, parser);
    html
}

/// The rendered preview of a document: none without a line limit, else the
/// markup of as much of the source as the limit admits.
pub open spec fn content_of(source: Seq<char>, limit: Option<i64>) -> Option<Seq<char>> {
    match limit {
        Some(n) => Some(markdown_html(preview_text(source, n as int))),
        None => None,
    }
}

/// The post of a document with at least one attribution record. The records
/// come in the order of the lines they cover: the first gives the time of the
/// last modification, the last the time of creation.
pub open spec fn post_of(
    title: Seq<char>,
    path: Seq<char>,
    records: Seq<BlameRecord>,
    content: Option<Seq<char>>,
) -> PostModel {
    PostModel {
        path,
        last_modified: records.first().when,
        created: records.last().when,
        authors: authors_of(records),
        title,
        id: path,
        content,
    }
}

/// What became of one document.
#[derive(Debug)]
pub enum Extraction {
    /// The document has a history, and this is its post.
    Post(Post),
    /// No attribution could be had for the document: it is left out.
    Excluded,
    /// The attribution holds no record to take the times from.
    Fatal,
}

/// Builds the post of a document from its attribution records and its
/// rendered preview.
pub fn assemble(title: String, path: String, records: &Vec<BlameRecord>, content: Option<String>) -> (post:
    Post)
    requires
        records.len() > 0,
    ensures
        post@ == post_of(title@, path@, records@, optional_text(content)),
        post.well_formed(),
{
    let last_modified = records[0].when;
    let created = records[records.len() - 1].when;
    let authors = collect_authors(records);
    let id = path.clone();
    Post { path, last_modified, created, authors, title, id, content }
}

/// Renders the preview of a document, if previews are asked for. A preview
/// of no text is empty.
pub fn render_content(source: &str, number_of_lines: Option<i64>) -> (content: Option<String>)
    ensures
        optional_text(content) == content_of(source@, number_of_lines),
        (number_of_lines matches Some(n) && preview_text(source@, n as int).len() == 0)
            ==> optional_text(content) == Some(Seq::<char>::empty()),
{
    match number_of_lines {
        Some(limit) => {
            let markdown = preview_source(source, limit);
            let html = render_markdown(markdown.as_str());
            assert(markdown@.len() == 0 ==> html@ =~= Seq::<char>::empty());
            Some(html)
        },
        None => None,
    }
}

/// A chapter of the book: its display name, and where its source and its
/// rendered page lie. Draft chapters have no paths.
#[derive(Debug)]
pub struct Chapter {
    pub name: String,
    pub source_path: Option<String>,
    pub path: Option<String>,
}

/// A chapter with what the repository holds for it: the attribution of its
/// current content, absent where none could be had, and the text of its
/// source file.
#[derive(Debug)]
pub struct TrackedChapter {
    pub chapter: Chapter,
    pub history: Option<Vec<BlameRecord>>,
    pub source: String,
}

impl Chapter {
    /// Whether the chapter is a document: it has a source and a page.
    pub open spec fn spec_is_document(&self) -> bool {
        self.source_path is Some && self.path is Some
    }

    /// Whether the chapter is a document: it has a source and a page.
    #[verifier::when_used_as_spec(spec_is_document)]
    pub fn is_document(&self) -> (r: bool)
        ensures
            r == self.spec_is_document(),
    {
        self.source_path.is_some() && self.path.is_some()
    }
}

impl TrackedChapter {
    /// The post of the chapter, where it is a document with attribution
    /// records.
    pub open spec fn post(&self, limit: Option<i64>) -> Option<PostModel> {
        if self.chapter.is_document() && self.history is Some && self.history->0.len() > 0 {
            Some(
                post_of(
                    self.chapter.name@,
                    self.chapter.path->0@,
                    self.history->0@,
                    content_of(self.source@, limit),
                ),
            )
        } else {
            None
        }
    }

    /// The chapter is a document whose attribution holds no record.
    pub open spec fn is_broken(&self) -> bool {
        self.chapter.is_document() && self.history is Some && self.history->0.len() == 0
    }
}

/// The posts of the chapters, in the order of the chapters.
pub open spec fn posts_of(chapters: Seq<TrackedChapter>, limit: Option<i64>) -> Seq<PostModel>
    decreases chapters.len(),
{
    if chapters.len() == 0 {
        Seq::empty()
    } else {
        let before = posts_of(chapters.drop_last(), limit);
        match chapters.last().post(limit) {
            Some(post) => before.push(post),
            None => before,
        }
    }
}

/// Chapters none of which has a post give no posts.
pub proof fn lemma_posts_of_none(chapters: Seq<TrackedChapter>, limit: Option<i64>)
    requires
        forall|i: int| 0 <= i < chapters.len() ==> (#[trigger] chapters[i]).post(limit) is None,
    ensures
        posts_of(chapters, limit).len() == 0,
    decreases chapters.len(),
{
    if chapters.len() > 0 {
        let init = chapters.drop_last();
        assert forall|i: int| 0 <= i < init.len() implies (#[trigger] init[i]).post(limit) is None by {
            assert(init[i] == chapters[i]);
        }
        lemma_posts_of_none(init, limit);
    }
}

/// Why a search found nothing to publish.
#[derive(Clone, Copy, Debug, PartialEq, Eq, Structural)]
pub enum SearchError {
    /// The attribution of a document holds no record.
    MissingAttribution,
    /// The commit traversal yielded no commit to take the cutoff from.
    NoCommits,
    /// No chapter has a post.
    NoPosts,
}

/// What a search over `chapters` gives, with the commit traversal `commits`:
/// the selection from the chapters' posts, or the reason why there is none.
/// A document whose attribution holds no record comes first, then a
/// traversal with no commit to take, then a book without any post.
pub open spec fn search_result(
    chapters: Seq<TrackedChapter>,
    commits: Seq<Timestamp>,
    limit: Option<i64>,
    target_entries: int,
    commit_horizon: int,
) -> Result<Seq<PostModel>, SearchError> {
    if exists|i: int| 0 <= i < chapters.len() && (#[trigger] chapters[i]).is_broken() {
        Err(SearchError::MissingAttribution)
    } else {
        match select_result(posts_of(chapters, limit), commits, target_entries, commit_horizon) {
            Ok(selected) => Ok(selected),
            Err(SelectError::NoCommits) => Err(SearchError::NoCommits),
            Err(SelectError::NoPosts) => Err(SearchError::NoPosts),
        }
    }
}

/// Finds posts in a snapshot of a repository's history.
#[derive(Debug)]
pub struct PostFinder {
    /// The times of the commits, in the order of a traversal that runs newest
    /// first.
    pub commit_times: Vec<Timestamp>,
}

impl PostFinder {
    /// A finder over the commits whose times are given, newest first.
    pub fn new(commit_times: Vec<Timestamp>) -> (finder: PostFinder)
        ensures
            finder.commit_times == commit_times,
    {
        PostFinder { commit_times }
    }

    /// The posts of the chapters that are documents with a known history,
    /// newest first and cut down to the window to publish.
    ///
    /// A chapter without paths and a document without attribution are left
    /// out. A document whose attribution holds no record is an error, as are
    /// a history without commits and a book without any post.
    pub fn search(
        &self,
        chapters: Vec<TrackedChapter>,
        max_number_of_lines: Option<i64>,
        target_entries: i64,
        commit_horizon: i64,
    ) -> (r: Result<Vec<Post>, SearchError>)
        ensures
            match r {
                Ok(posts) => {
                    &&& search_result(
                        chapters@,
                        self.commit_times@,
                        max_number_of_lines,
                        target_entries as int,
                        commit_horizon as int,
                    ) == Ok::<Seq<PostModel>, SearchError>(posts.deep_view())
                    &&& sorted_by_recency(posts.deep_view())
                    &&& target_entries > 0 ==> posts.len() <= target_entries
                },
                Err(error) => search_result(
                    chapters@,
                    self.commit_times@,
                    max_number_of_lines,
                    target_entries as int,
                    commit_horizon as int,
                ) == Err::<Seq<PostModel>, SearchError>(error),
            },
            (forall|i: int|
                0 <= i < chapters.len() ==> (#[trigger] chapters[i]).post(max_number_of_lines)
                    is None) ==> r is Err,
    {
        let ghost given = chapters@;
        let mut posts: Vec<Post> = Vec::new();
        assert(posts.deep_view() =~= Seq::<PostModel>::empty());
        assert(given.take(0) =~= Seq::<TrackedChapter>::empty());
        for entry in it: chapters
            invariant
                it.seq() == given,
                posts.deep_view() == posts_of(
                    given.take(it.index() as int),
                    max_number_of_lines,
                ),
                forall|i: int| 0 <= i < it.index() ==> !(#[trigger] given[i]).is_broken(),
        {
            let ghost before = posts.deep_view();
            assert(given.take(it.index() + 1).drop_last() =~= given.take(it.index() as int));
            let TrackedChapter { chapter, history, source } = entry;
            let Chapter { name, source_path, path } = chapter;
            if source_path.is_some() {
                match path {
                    Some(path) => {
                        match self.post(history, source.as_str(), name, path, max_number_of_lines) {
                            Extraction::Post(post) => {
                                posts.push(post);
                                assert(posts.deep_view() =~= before.push(post@));
                            },
                            Extraction::Excluded => {},
                            Extraction::Fatal => {
                                assert(given[it.index() as int].is_broken());
                                return Err(SearchError::MissingAttribution);
                            },
                        }
                    },
                    None => {},
                }
            }
        }
        assert(given.take(given.len() as int) =~= given);
        proof {
            if forall|i: int|
                0 <= i < given.len() ==> (#[trigger] given[i]).post(max_number_of_lines) is None {
                lemma_posts_of_none(given, max_number_of_lines);
            }
        }
        match self.most_recent(posts, target_entries, commit_horizon) {
            Ok(selected) => Ok(selected),
            Err(SelectError::NoCommits) => Err(SearchError::NoCommits),
            Err(SelectError::NoPosts) => Err(SearchError::NoPosts),
        }
    }

    /// The most recent of the posts: newest first, modified at or after the
    /// cutoff, and at most `target_entries` of them where that count is
    /// positive.
    pub fn most_recent(&self, posts: Vec<Post>, target_entries: i64, commit_horizon: i64) -> (r:
        Result<Vec<Post>, SelectError>)
        ensures
            match r {
                Ok(selected) => {
                    &&& select_result(
                        posts.deep_view(),
                        self.commit_times@,
                        target_entries as int,
                        commit_horizon as int,
                    ) == Ok::<Seq<PostModel>, SelectError>(selected.deep_view())
                    &&& sorted_by_recency(selected.deep_view())
                    &&& selected.len() <= posts.len()
                    &&& target_entries > 0 ==> selected.len() <= target_entries
                },
                Err(error) => select_result(
                    posts.deep_view(),
                    self.commit_times@,
                    target_entries as int,
                    commit_horizon as int,
                ) == Err::<Seq<PostModel>, SelectError>(error),
            },
    {
        select(posts, &self.commit_times, target_entries, commit_horizon)
    }

    /// The post of one document.
    ///
    /// `history` is the attribution of the document's current content, line
    /// by line in the order of the lines, or nothing where no attribution
    /// could be had; `source` is the text of its source file, which is read
    /// only where a preview is asked for.
    pub fn post(
        &self,
        history: Option<Vec<BlameRecord>>,
        source: &str,
        title: String,
        content_path: String,
        number_of_lines: Option<i64>,
    ) -> (r: Extraction)
        ensures
            match r {
                Extraction::Post(post) => {
                    &&& history matches Some(records)
                    &&& records.len() > 0
                    &&& post@ == post_of(
                        title@,
                        content_path@,
                        records@,
                        content_of(source@, number_of_lines),
                    )
                    &&& post.well_formed()
                    &&& (number_of_lines matches Some(n) && preview_text(source@, n as int).len()
                        == 0) ==> post@.content == Some(Seq::<char>::empty())
                },
                Extraction::Excluded => history is None,
                Extraction::Fatal => history matches Some(records) && records.len() == 0,
            },
    {
        match history {
            None => Extraction::Excluded,
            Some(records) => {
                if records.len() == 0 {
                    Extraction::Fatal
                } else {
                    let content = render_content(source, number_of_lines);
                    Extraction::Post(assemble(title, content_path, &records, content))
                }
            },
        }
    }
}

} // verus!
