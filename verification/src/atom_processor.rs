//! The syndication feed of a book: one entry for each post that has an
//! address.

use vstd::prelude::*;
use vstd::string::StringExecFns;

use crate::author::{Author, AuthorModel};
use crate::config::{
    integer_setting, setting_or, BookSettings, ConfigError, DEFAULT_MINIMUM_COMMITS,
    DEFAULT_PREVIEW_LINES, DEFAULT_TARGET_ENTRIES,
};
use crate::link::{joined_url, page_url, parse_url, parsed_url};
use crate::post::{Post, PostModel};
use crate::post_finder::{search_result, PostFinder, SearchError, TrackedChapter};
use crate::text::{clone_optional_text, optional_text, same_text};

verus! {

/// A person named in a feed.
#[derive(Debug)]
pub struct Person {
    pub name: String,
    pub email: Option<String>,
}

/// A link of a feed entry.
#[derive(Debug)]
pub struct Link {
    pub href: String,
    pub rel: String,
}

/// The content of a feed entry.
#[derive(Debug)]
pub struct Content {
    pub value: String,
    pub content_type: String,
}

/// An entry of a feed. The times are in seconds since the Unix epoch.
#[derive(Debug)]
pub struct Entry {
    pub title: String,
    pub id: String,
    pub updated: i64,
    pub published: i64,
    pub authors: Vec<Person>,
    pub link: Link,
    pub content: Content,
}

/// A feed. The time is in seconds since the Unix epoch.
#[derive(Debug)]
pub struct Feed {
    pub title: String,
    pub id: String,
    pub updated: i64,
    pub entries: Vec<Entry>,
}

/// What a [`Link`] stands for.
pub struct LinkModel {
    pub href: Seq<char>,
    pub rel: Seq<char>,
}

/// What a [`Content`] stands for.
pub struct ContentModel {
    pub value: Seq<char>,
    pub content_type: Seq<char>,
}

/// What an [`Entry`] stands for.
pub struct EntryModel {
    pub title: Seq<char>,
    pub id: Seq<char>,
    pub updated: int,
    pub published: int,
    pub authors: Seq<AuthorModel>,
    pub link: LinkModel,
    pub content: ContentModel,
}

/// What a [`Feed`] stands for.
pub struct FeedModel {
    pub title: Seq<char>,
    pub id: Seq<char>,
    pub updated: int,
    pub entries: Seq<EntryModel>,
}

impl View for Person {
    type V = AuthorModel;

    open spec fn view(&self) -> AuthorModel {
        (self.name@, optional_text(self.email))
    }
}

impl DeepView for Person {
    type V = AuthorModel;

    open spec fn deep_view(&self) -> AuthorModel {
        self@
    }
}

impl View for Link {
    type V = LinkModel;

    open spec fn view(&self) -> LinkModel {
        LinkModel { href: self.href@, rel: self.rel@ }
    }
}

impl View for Content {
    type V = ContentModel;

    open spec fn view(&self) -> ContentModel {
        ContentModel { value: self.value@, content_type: self.content_type@ }
    }
}

impl View for Entry {
    type V = EntryModel;

    open spec fn view(&self) -> EntryModel {
        EntryModel {
            title: self.title@,
            id: self.id@,
            updated: self.updated as int,
            published: self.published as int,
            authors: self.authors.deep_view(),
            link: self.link@,
            content: self.content@,
        }
    }
}

impl DeepView for Entry {
    type V = EntryModel;

    open spec fn deep_view(&self) -> EntryModel {
        self@
    }
}

impl View for Feed {
    type V = FeedModel;

    open spec fn view(&self) -> FeedModel {
        FeedModel {
            title: self.title@,
            id: self.id@,
            updated: self.updated as int,
            entries: self.entries.deep_view(),
        }
    }
}

/// What stands for a character in markup text: `&`, `<` and `>` are
/// written as entities, any other character as itself.
pub open spec fn escaped_char(c: char) -> Seq<char> {
    if c == '&' {
        seq!['&', 'a', 'm', 'p', ';']
    } else if c == '<' {
        seq!['&', 'l', 't', ';']
    } else if c == '>' {
        seq!['&', 'g', 't', ';']
    } else {
        seq![c]
    }
}

/// A text with each character escaped for markup.
pub open spec fn escaped_text(s: Seq<char>) -> Seq<char>
    decreases s.len(),
{
    if s.len() == 0 {
        Seq::empty()
    } else {
        escaped_text(s.drop_last()) + escaped_char(s.last())
    }
}

/// Escapes a text with `html_escape::encode_text`, which replaces each `&`
/// by `&amp;`, each `<` by `&lt;` and each `>` by `&gt;`, and leaves every
/// other character as it is.
#[verifier::external_body]
pub(crate) fn encode_text(text: &str) -> (encoded: String)
    ensures
        encoded@ == escaped_text(text@),
{
    html_escape::encode_text(text).into_owned()
}

/// The link of a post's entry: the address of its page under the base URL,
/// as the entry's own address. There is none where the path cannot be
/// resolved against the base URL.
pub open spec fn link_of(post: PostModel, base_url: Seq<char>) -> Option<LinkModel> {
    match joined_url(base_url, post.path) {
        Some(joined) => Some(LinkModel { href: page_url(joined), rel: "self"@ }),
        None => None,
    }
}

/// The content of a post's entry: the escaped preview, empty where the post
/// has none, as markup.
pub open spec fn entry_content_of(post: PostModel) -> ContentModel {
    ContentModel {
        value: escaped_text(
            match post.content {
                Some(content) => content,
                None => Seq::empty(),
            },
        ),
        content_type: "html"@,
    }
}

/// The entry of a post, where the post has a link.
pub open spec fn entry_of(post: PostModel, base_url: Seq<char>) -> Option<EntryModel> {
    match link_of(post, base_url) {
        Some(link) => Some(
            EntryModel {
                title: post.title,
                id: post.id,
                updated: post.last_modified.seconds as int,
                published: post.created.seconds as int,
                authors: post.authors,
                link,
                content: entry_content_of(post),
            },
        ),
        None => None,
    }
}

/// The entries of the posts that have a link, in the order of the posts.
pub open spec fn entries_of(posts: Seq<PostModel>, base_url: Seq<char>) -> Seq<EntryModel>
    decreases posts.len(),
{
    if posts.len() == 0 {
        Seq::empty()
    } else {
        let before = entries_of(posts.drop_last(), base_url);
        match entry_of(posts.last(), base_url) {
            Some(entry) => before.push(entry),
            None => before,
        }
    }
}

/// The feed of the posts, which are at least one: it was updated when the
/// first post was last modified.
pub open spec fn feed_of(posts: Seq<PostModel>, title: Seq<char>, base_url: Seq<char>) -> FeedModel {
    FeedModel {
        title,
        id: Seq::empty(),
        updated: posts.first().last_modified.seconds as int,
        entries: entries_of(posts, base_url),
    }
}

impl Author {
    /// The author as a person of the feed.
    pub fn as_person(&self) -> (person: Person)
        ensures
            person@ == self@,
    {
        Person { name: self.name.clone(), email: clone_optional_text(&self.email) }
    }
}

impl Post {
    /// The authors of the post as persons of the feed, one for one.
    pub fn authors_vector(&self) -> (persons: Vec<Person>)
        ensures
            persons.deep_view() == self@.authors,
    {
        let mut persons: Vec<Person> = Vec::new();
        let mut i: usize = 0;
        while i < self.authors.len()
            invariant
                i <= self.authors.len(),
                persons.len() == i,
                forall|k: int| 0 <= k < i ==> persons@[k]@ == self.authors@[k]@,
            decreases self.authors.len() - i,
        {
            persons.push(self.authors[i].as_person());
            i += 1;
        }
        assert(persons.deep_view() =~= self.authors.deep_view());
        persons
    }

    /// The link of the post's entry, where its path can be resolved against
    /// the base URL.
    pub fn link(&self, base_url: &str) -> (link: Option<Link>)
        ensures
            match link {
                Some(link) => link_of(self@, base_url@) == Some(link@),
                None => link_of(self@, base_url@) is None,
            },
    {
        match self.source_url(Some(base_url)) {
            Some(href) => Some(Link { href, rel: String::from_str("self") }),
            None => None,
        }
    }

    /// The post as an entry of the feed. A post without a link has no entry.
    pub fn to_atom_entry(&self, base_url: &str) -> (entry: Option<Entry>)
        ensures
            match entry {
                Some(entry) => entry_of(self@, base_url@) == Some(entry@),
                None => entry_of(self@, base_url@) is None,
            },
    {
        let link = match self.link(base_url) {
            Some(link) => link,
            None => {
                return None;
            },
        };
        let value = match &self.content {
            Some(content) => encode_text(content.as_str()),
            None => encode_text(""),
        };
        proof {
            reveal_strlit("");
            assert(""@ =~= Seq::<char>::empty());
        }
        Some(
            Entry {
                title: self.title.clone(),
                id: self.id.clone(),
                updated: self.last_modified.seconds,
                published: self.created.seconds,
                authors: self.authors_vector(),
                link,
                content: Content { value, content_type: String::from_str("html") },
            },
        )
    }
}

/// Why no feed could be made.
#[derive(Clone, Copy, Debug, PartialEq, Eq, Structural)]
pub enum FeedError {
    /// There is no post to make a feed from.
    NoPosts,
}

/// Makes the feed of a selection of posts.
#[derive(Clone, Copy, Debug)]
pub struct AtomGenerator;

impl AtomGenerator {
    /// The feed of the posts, newest first: an entry for each post that has
    /// a link, and the time of the first post as the time of the feed. No
    /// feed is made of no posts.
    pub fn generate(&self, posts: Vec<Post>, title: String, base_url: &str) -> (r: Result<
        Feed,
        FeedError,
    >)
        ensures
            match r {
                Ok(feed) => posts.len() > 0 && feed@ == feed_of(
                    posts.deep_view(),
                    title@,
                    base_url@,
                ),
                Err(FeedError::NoPosts) => posts.len() == 0,
            },
    {
        if posts.len() == 0 {
            return Err(FeedError::NoPosts);
        }
        let ghost all = posts.deep_view();
        let mut entries: Vec<Entry> = Vec::new();
        let mut i: usize = 0;
        assert(all.take(0) =~= Seq::<PostModel>::empty());
        assert(entries.deep_view() =~= Seq::<EntryModel>::empty());
        while i < posts.len()
            invariant
                i <= posts.len(),
                all == posts.deep_view(),
                entries.deep_view() == entries_of(all.take(i as int), base_url@),
            decreases posts.len() - i,
        {
            let ghost before = entries.deep_view();
            assert(all.take(i + 1).drop_last() =~= all.take(i as int));
            assert(all.take(i + 1).last() == posts@[i as int]@);
            match posts[i].to_atom_entry(base_url) {
                Some(entry) => {
                    entries.push(entry);
                    assert(entries.deep_view() =~= before.push(entry@));
                },
                None => {},
            }
            i += 1;
        }
        assert(all.take(posts.len() as int) =~= all);
        let updated = posts[0].last_modified.seconds;
        Ok(Feed { title, id: String::new(), updated, entries })
    }
}

/// The settings of the feed.
#[derive(Debug)]
pub struct AtomConfig {
    /// The title of the feed: that of the book.
    pub title: String,
    /// The absolute URL under which the book is published, as serialized by
    /// the URL parser.
    pub base_url: String,
    /// The directory of the book's sources.
    pub content_path: String,
    /// The root directory of the book, which holds the repository.
    pub root_path: String,
    /// The commit horizon: with a target of zero entries, the posts modified
    /// since this many commits ago are published. A negative horizon is the
    /// whole history.
    pub minimum_number_of_commits: i64,
    /// How many lines of a document its preview shows: none for 0, all of
    /// them for -1.
    pub maximum_number_of_lines: i64,
    /// The number of entries aimed at; 0 publishes by the commit horizon
    /// alone.
    pub target_number_of_entries: i64,
}

impl AtomConfig {
    /// What is wrong with the settings, if anything: the first of the
    /// errors, in the order in which the settings are read.
    pub open spec fn error_in(settings: BookSettings) -> Option<ConfigError> {
        if !settings.has_section {
            Some(ConfigError::MissingSection)
        } else if settings.base_url is None {
            Some(ConfigError::MissingBaseUrl)
        } else if setting_or(settings.article_preview_lines, DEFAULT_PREVIEW_LINES) < -1 {
            Some(ConfigError::InvalidPreviewLines)
        } else if setting_or(settings.target_number_of_entries, DEFAULT_TARGET_ENTRIES) < -1 {
            Some(ConfigError::InvalidTargetEntries)
        } else if settings.title is None {
            Some(ConfigError::MissingTitle)
        } else if parsed_url(settings.base_url->0@) is None {
            Some(ConfigError::InvalidBaseUrl)
        } else {
            None
        }
    }

    /// Reads the settings of the feed. A setting that is not configured has
    /// its default: no preview, ten entries, the whole history.
    pub fn from_book_config(settings: BookSettings) -> (r: Result<AtomConfig, ConfigError>)
        ensures
            match r {
                Ok(config) => {
                    &&& Self::error_in(settings) is None
                    &&& config.title == settings.title->0
                    &&& Some(config.base_url@) == parsed_url(settings.base_url->0@)
                    &&& config.content_path == settings.content_path
                    &&& config.root_path == settings.root_path
                    &&& config.minimum_number_of_commits == setting_or(
                        settings.minimum_number_of_commits,
                        DEFAULT_MINIMUM_COMMITS,
                    )
                    &&& config.maximum_number_of_lines == setting_or(
                        settings.article_preview_lines,
                        DEFAULT_PREVIEW_LINES,
                    )
                    &&& config.target_number_of_entries == setting_or(
                        settings.target_number_of_entries,
                        DEFAULT_TARGET_ENTRIES,
                    )
                    &&& config.maximum_number_of_lines >= -1
                    &&& config.target_number_of_entries >= -1
                },
                Err(error) => Self::error_in(settings) == Some(error),
            },
    {
        let BookSettings {
            has_section,
            base_url,
            minimum_number_of_commits,
            article_preview_lines,
            target_number_of_entries,
            title,
            content_path,
            root_path,
        } = settings;
        if !has_section {
            return Err(ConfigError::MissingSection);
        }
        let base_url_text = match base_url {
            Some(text) => text,
            None => {
                return Err(ConfigError::MissingBaseUrl);
            },
        };
        let minimum_number_of_commits = integer_setting(
            minimum_number_of_commits,
            DEFAULT_MINIMUM_COMMITS,
        );
        let maximum_number_of_lines = integer_setting(article_preview_lines, DEFAULT_PREVIEW_LINES);
        if maximum_number_of_lines < -1 {
            return Err(ConfigError::InvalidPreviewLines);
        }
        let target_number_of_entries = integer_setting(
            target_number_of_entries,
            DEFAULT_TARGET_ENTRIES,
        );
        if target_number_of_entries < -1 {
            return Err(ConfigError::InvalidTargetEntries);
        }
        let title = match title {
            Some(title) => title,
            None => {
                return Err(ConfigError::MissingTitle);
            },
        };
        let base_url = match parse_url(base_url_text.as_str()) {
            Some(url) => url,
            None => {
                return Err(ConfigError::InvalidBaseUrl);
            },
        };
        Ok(
            AtomConfig {
                title,
                base_url,
                content_path,
                root_path,
                minimum_number_of_commits,
                maximum_number_of_lines,
                target_number_of_entries,
            },
        )
    }

    /// The line limit of the previews: none where previews are switched off
    /// by a limit of 0.
    pub open spec fn spec_preview_limit(&self) -> Option<i64> {
        if self.maximum_number_of_lines == 0 {
            None
        } else {
            Some(self.maximum_number_of_lines)
        }
    }

    /// The line limit of the previews: none where previews are switched off
    /// by a limit of 0.
    #[verifier::when_used_as_spec(spec_preview_limit)]
    pub fn preview_limit(&self) -> (limit: Option<i64>)
        ensures
            limit == self.spec_preview_limit(),
    {
        if self.maximum_number_of_lines == 0 {
            None
        } else {
            Some(self.maximum_number_of_lines)
        }
    }
}

/// Why no feed came out of a run.
#[derive(Clone, Copy, Debug, PartialEq, Eq, Structural)]
pub enum AtomError {
    /// The search for posts failed.
    Search(SearchError),
    /// No post lies within the window to publish.
    NothingSelected,
}

/// The preprocessor that writes the feed of a book.
#[derive(Clone, Copy, Debug)]
pub struct AtomProcessor;

impl AtomProcessor {
    /// The name under which the host knows the preprocessor.
    pub fn name(&self) -> (name: &'static str)
        ensures
            name@ == "git-atom"@,
    {
        "git-atom"
    }

    /// Whether the preprocessor runs for a renderer: for `html` only.
    pub fn supports_renderer(&self, renderer: &str) -> (r: bool)
        ensures
            r == (renderer@ == "html"@),
    {
        same_text(renderer, "html")
    }

    /// What a run gives: the feed of the posts that the search selects, or
    /// the reason why there is none.
    pub open spec fn run_result(
        config: &AtomConfig,
        finder: &PostFinder,
        chapters: Seq<TrackedChapter>,
    ) -> Result<FeedModel, AtomError> {
        match search_result(
            chapters,
            finder.commit_times@,
            config.preview_limit(),
            config.target_number_of_entries as int,
            config.minimum_number_of_commits as int,
        ) {
            Err(error) => Err(AtomError::Search(error)),
            Ok(posts) => if posts.len() == 0 {
                Err(AtomError::NothingSelected)
            } else {
                Ok(feed_of(posts, config.title@, config.base_url@))
            },
        }
    }

    /// Makes the feed of a book: finds the posts of its chapters, selects
    /// those to publish, and maps them to entries.
    pub fn run(&self, config: &AtomConfig, finder: &PostFinder, chapters: Vec<TrackedChapter>) -> (r:
        Result<Feed, AtomError>)
        ensures
            match r {
                Ok(feed) => Self::run_result(config, finder, chapters@) == Ok::<
                    FeedModel,
                    AtomError,
                >(feed@),
                Err(error) => Self::run_result(config, finder, chapters@) == Err::<
                    FeedModel,
                    AtomError,
                >(error),
            },
            (forall|i: int|
                0 <= i < chapters.len() ==> (#[trigger] chapters[i]).post(config.preview_limit())
                    is None) ==> r is Err,
    {
        let posts = match finder.search(
            chapters,
            config.preview_limit(),
            config.target_number_of_entries,
            config.minimum_number_of_commits,
        ) {
            Ok(posts) => posts,
            Err(error) => {
                return Err(AtomError::Search(error));
            },
        };
        match AtomGenerator.generate(posts, config.title.clone(), config.base_url.as_str()) {
            Ok(feed) => Ok(feed),
            Err(FeedError::NoPosts) => Err(AtomError::NothingSelected),
        }
    }
}

} // verus!
