use mdbook_git_atom::atom_processor::{AtomConfig, AtomError, FeedError};
use mdbook_git_atom::author::{Author, BlameRecord};
use mdbook_git_atom::config::{BookSettings, ConfigError};
use mdbook_git_atom::link::rewrite_page_suffix;
use mdbook_git_atom::post_finder::{Chapter, SearchError, TrackedChapter};
use mdbook_git_atom::time::Timestamp;
use mdbook_git_atom::{AtomGenerator, AtomProcessor, Post, PostFinder};

const BASE: &str = "https://example.com/book/";

fn post(path: &str, modified: i64, created: i64, content: Option<&str>) -> Post {
    Post {
        path: path.to_string(),
        last_modified: Timestamp::new(modified, 0),
        created: Timestamp::new(created, 0),
        authors: vec![
            Author { name: String::from("Ann"), email: Some(String::from("ann@example.com")) },
            Author { name: String::from("Bob"), email: None },
        ],
        title: format!("Title of {}", path),
        id: path.to_string(),
        content: content.map(|c| c.to_string()),
    }
}

fn settings() -> BookSettings {
    BookSettings {
        has_section: true,
        base_url: Some(String::from("https://example.com/book/")),
        minimum_number_of_commits: None,
        article_preview_lines: None,
        target_number_of_entries: None,
        title: Some(String::from("The Book")),
        content_path: String::from("src"),
        root_path: String::from("/work/book"),
    }
}

fn chapter(name: &str, path: &str, seconds: Option<i64>) -> TrackedChapter {
    TrackedChapter {
        chapter: Chapter {
            name: name.to_string(),
            source_path: Some(path.to_string()),
            path: Some(path.to_string()),
        },
        history: seconds.map(|s| {
            vec![BlameRecord {
                name: Some(String::from("Ann")),
                email: None,
                when: Timestamp::new(s, 0),
            }]
        }),
        source: String::from("a < b\nsecond line\n"),
    }
}

#[test]
fn a_readme_becomes_the_index_page() {
    let url = post("docs/README.md", 1, 1, None).source_url(Some(BASE));
    assert_eq!(url, Some(String::from("https://example.com/book/docs/index.html")));
}

#[test]
fn a_markdown_document_becomes_a_page() {
    let url = post("docs/guide.md", 1, 1, None).source_url(Some(BASE));
    assert_eq!(url, Some(String::from("https://example.com/book/docs/guide.html")));
}

#[test]
fn any_other_extension_is_left_unchanged() {
    let url = post("docs/image.png", 1, 1, None).source_url(Some(BASE));
    assert_eq!(url, Some(String::from("https://example.com/book/docs/image.png")));
    assert_eq!(rewrite_page_suffix(String::from("docs/notes.cmd")), "docs/notes.cmd");
    assert_eq!(rewrite_page_suffix(String::from("docs/READMEXmd")), "docs/READMEXmd");
    assert_eq!(rewrite_page_suffix(String::from("docs/guide.md.txt")), "docs/guide.md.txt");
    assert_eq!(rewrite_page_suffix(String::from("md")), "md");
    assert_eq!(rewrite_page_suffix(String::new()), "");
}

#[test]
fn the_suffix_is_rewritten_at_the_end_only() {
    assert_eq!(rewrite_page_suffix(String::from("README.md")), "index.html");
    assert_eq!(rewrite_page_suffix(String::from("a.md/README.md")), "a.md/index.html");
    assert_eq!(rewrite_page_suffix(String::from("README.md/b.md")), "README.md/b.html");
    assert_eq!(rewrite_page_suffix(String::from("/README.md")), "/index.html");
    assert_eq!(rewrite_page_suffix(String::from("readme.md")), "readme.html");
    assert_eq!(rewrite_page_suffix(String::from(".md")), ".html");
    assert_eq!(rewrite_page_suffix(String::from("caf\u{e9}.md")), "caf\u{e9}.html");
}

#[test]
fn only_a_file_named_readme_becomes_the_index_page() {
    assert_eq!(rewrite_page_suffix(String::from("docs/MYREADME.md")), "docs/MYREADME.html");
    assert_eq!(rewrite_page_suffix(String::from("myREADME.md")), "myREADME.html");
    assert_eq!(rewrite_page_suffix(String::from("docs/.README.md")), "docs/.README.html");
    assert_eq!(rewrite_page_suffix(String::from("docs/README.md.md")), "docs/README.md.html");
    assert_eq!(rewrite_page_suffix(String::from("docs\\README.md")), "docs\\README.html");
    assert_eq!(rewrite_page_suffix(String::from("docs/README.MD")), "docs/README.MD");
    assert_eq!(
        post("docs/MYREADME.md", 1, 1, None).source_url(Some(BASE)),
        Some(String::from("https://example.com/book/docs/MYREADME.html"))
    );
    assert_eq!(
        post("README.md", 1, 1, None).source_url(Some("https://example.com")),
        Some(String::from("https://example.com/index.html"))
    );
}

#[test]
fn the_rewriting_agrees_with_the_patterns_on_markdown_paths() {
    let readme = regex::Regex::new(r"(^|/)README\.md$").unwrap();
    let markdown = regex::Regex::new(r"\.md$").unwrap();
    let paths = [
        "a/README.md",
        "a/b.md",
        "README.md",
        "x.md.md",
        "a/b.txt",
        "a.mdx",
        "",
        "a/MYREADME.md",
        "READMEXmd",
        "a/READMEXmd",
        "notes.cmd",
        "/README.md",
        "README.md/README.md",
    ];
    for path in paths {
        let first = readme.replace_all(path, "${1}index.html").to_string();
        let expected = markdown.replace_all(&first, ".html").to_string();
        assert_eq!(rewrite_page_suffix(path.to_string()), expected);
    }
}

#[test]
fn without_a_base_the_path_itself_is_rewritten() {
    assert_eq!(
        post("docs/README.md", 1, 1, None).source_url(None),
        Some(String::from("docs/index.html"))
    );
    assert_eq!(
        post("docs/guide.md", 1, 1, None).source_url(None),
        Some(String::from("docs/guide.html"))
    );
}

#[test]
fn the_path_is_resolved_as_a_reference() {
    assert_eq!(
        post("../up.md", 1, 1, None).source_url(Some("https://example.com/a/b/")),
        Some(String::from("https://example.com/a/up.html"))
    );
    assert_eq!(
        post("c.md", 1, 1, None).source_url(Some("https://example.com/a/b.html")),
        Some(String::from("https://example.com/a/c.html"))
    );
    assert_eq!(
        post("a b.md", 1, 1, None).source_url(Some(BASE)),
        Some(String::from("https://example.com/book/a%20b.html"))
    );
}

#[test]
fn a_base_that_cannot_be_one_gives_no_address() {
    let p = post("docs/guide.md", 1, 1, None);
    assert_eq!(p.source_url(Some("mailto:ann@example.com")), None);
    assert_eq!(p.source_url(Some("not a url")), None);
    assert!(p.link("mailto:ann@example.com").is_none());
    assert!(p.to_atom_entry("mailto:ann@example.com").is_none());
}

#[test]
fn the_link_of_an_entry_is_its_own_address() {
    let link = post("docs/guide.md", 1, 1, None).link(BASE).unwrap();
    assert_eq!(link.href, "https://example.com/book/docs/guide.html");
    assert_eq!(link.rel, "self");
}

#[test]
fn an_entry_maps_the_post_field_by_field() {
    let entry = post("docs/guide.md", 200, 100, Some("<p>a & b</p>\n")).to_atom_entry(BASE).unwrap();
    assert_eq!(entry.title, "Title of docs/guide.md");
    assert_eq!(entry.id, "docs/guide.md");
    assert_eq!(entry.updated, 200);
    assert_eq!(entry.published, 100);
    assert_eq!(entry.link.href, "https://example.com/book/docs/guide.html");
    assert_eq!(entry.link.rel, "self");
    assert_eq!(entry.content.value, "&lt;p&gt;a &amp; b&lt;/p&gt;\n");
    assert_eq!(entry.content.content_type, "html");
    assert_eq!(entry.authors.len(), 2);
    assert_eq!(entry.authors[0].name, "Ann");
    assert_eq!(entry.authors[0].email, Some(String::from("ann@example.com")));
    assert_eq!(entry.authors[1].name, "Bob");
    assert_eq!(entry.authors[1].email, None);
}

#[test]
fn a_post_without_content_has_an_empty_entry_content() {
    let entry = post("a.md", 2, 1, None).to_atom_entry(BASE).unwrap();
    assert_eq!(entry.content.value, "");
    assert_eq!(entry.content.content_type, "html");
}

#[test]
fn markup_characters_are_escaped_and_no_others() {
    let entry = post("a.md", 2, 1, Some("<>&\"'/ \u{e9}&amp;")).to_atom_entry(BASE).unwrap();
    assert_eq!(entry.content.value, "&lt;&gt;&amp;\"'/ \u{e9}&amp;amp;");
}

#[test]
fn authors_map_to_persons_one_for_one() {
    let p = post("a.md", 2, 1, None);
    let persons = p.authors_vector();
    assert_eq!(persons.len(), 2);
    let person = p.authors[0].as_person();
    assert_eq!(person.name, "Ann");
    assert_eq!(person.email, Some(String::from("ann@example.com")));
}

#[test]
fn the_feed_is_updated_when_the_first_post_was() {
    let posts = vec![post("new.md", 300, 10, None), post("old.md", 200, 20, None)];
    let feed = AtomGenerator.generate(posts, String::from("The Book"), BASE).unwrap();
    assert_eq!(feed.title, "The Book");
    assert_eq!(feed.id, "");
    assert_eq!(feed.updated, 300);
    let ids: Vec<&str> = feed.entries.iter().map(|e| e.id.as_str()).collect();
    assert_eq!(ids, vec!["new.md", "old.md"]);
}

#[test]
fn posts_without_a_link_are_dropped_from_the_feed() {
    let posts = vec![post("new.md", 300, 10, None), post("old.md", 200, 20, None)];
    let feed =
        AtomGenerator.generate(posts, String::from("The Book"), "mailto:ann@example.com").unwrap();
    assert_eq!(feed.updated, 300);
    assert!(feed.entries.is_empty());
}

#[test]
fn no_feed_is_made_of_no_posts() {
    let r = AtomGenerator.generate(Vec::new(), String::from("The Book"), BASE);
    assert_eq!(r.unwrap_err(), FeedError::NoPosts);
}

#[test]
fn the_settings_have_defaults() {
    let config = AtomConfig::from_book_config(settings()).unwrap();
    assert_eq!(config.title, "The Book");
    assert_eq!(config.base_url, "https://example.com/book/");
    assert_eq!(config.content_path, "src");
    assert_eq!(config.root_path, "/work/book");
    assert_eq!(config.minimum_number_of_commits, -1);
    assert_eq!(config.maximum_number_of_lines, 0);
    assert_eq!(config.target_number_of_entries, 10);
    assert_eq!(config.preview_limit(), None);
}

#[test]
fn the_settings_are_read_as_configured() {
    let mut given = settings();
    given.base_url = Some(String::from("HTTPS://Example.COM/book"));
    given.minimum_number_of_commits = Some(25);
    given.article_preview_lines = Some(-1);
    given.target_number_of_entries = Some(0);
    let config = AtomConfig::from_book_config(given).unwrap();
    assert_eq!(config.base_url, "https://example.com/book");
    assert_eq!(config.minimum_number_of_commits, 25);
    assert_eq!(config.maximum_number_of_lines, -1);
    assert_eq!(config.target_number_of_entries, 0);
    assert_eq!(config.preview_limit(), Some(-1));
    let mut five = settings();
    five.article_preview_lines = Some(5);
    five.target_number_of_entries = Some(-1);
    let config = AtomConfig::from_book_config(five).unwrap();
    assert_eq!(config.preview_limit(), Some(5));
    assert_eq!(config.target_number_of_entries, -1);
}

#[test]
fn a_missing_section_is_an_error() {
    let mut given = settings();
    given.has_section = false;
    given.base_url = None;
    assert_eq!(AtomConfig::from_book_config(given).unwrap_err(), ConfigError::MissingSection);
}

#[test]
fn a_missing_base_url_is_an_error() {
    let mut given = settings();
    given.base_url = None;
    given.article_preview_lines = Some(-5);
    assert_eq!(AtomConfig::from_book_config(given).unwrap_err(), ConfigError::MissingBaseUrl);
}

#[test]
fn preview_lines_below_minus_one_are_an_error() {
    let mut given = settings();
    given.article_preview_lines = Some(-2);
    given.target_number_of_entries = Some(-2);
    assert_eq!(AtomConfig::from_book_config(given).unwrap_err(), ConfigError::InvalidPreviewLines);
}

#[test]
fn target_entries_below_minus_one_are_an_error() {
    let mut given = settings();
    given.target_number_of_entries = Some(-2);
    given.title = None;
    assert_eq!(AtomConfig::from_book_config(given).unwrap_err(), ConfigError::InvalidTargetEntries);
}

#[test]
fn a_missing_title_is_an_error() {
    let mut given = settings();
    given.title = None;
    given.base_url = Some(String::from("no url"));
    assert_eq!(AtomConfig::from_book_config(given).unwrap_err(), ConfigError::MissingTitle);
}

#[test]
fn a_base_url_that_is_not_absolute_is_an_error() {
    let mut given = settings();
    given.base_url = Some(String::from("/book/"));
    assert_eq!(AtomConfig::from_book_config(given).unwrap_err(), ConfigError::InvalidBaseUrl);
}

#[test]
fn the_atom_preprocessor_runs_for_html() {
    assert_eq!(AtomProcessor.name(), "git-atom");
    assert!(AtomProcessor.supports_renderer("html"));
    assert!(!AtomProcessor.supports_renderer("markdown"));
    assert!(!AtomProcessor.supports_renderer("HTML"));
    assert!(!AtomProcessor.supports_renderer("xhtml"));
    assert!(!AtomProcessor.supports_renderer(""));
}

#[test]
fn a_run_makes_the_feed_of_the_newest_documents() {
    let mut given = settings();
    given.target_number_of_entries = Some(2);
    given.article_preview_lines = Some(1);
    let config = AtomConfig::from_book_config(given).unwrap();
    let finder = PostFinder::new(vec![Timestamp::new(30, 0), Timestamp::new(10, 0)]);
    let chapters = vec![
        chapter("Oldest", "oldest.md", Some(10)),
        chapter("Newest", "README.md", Some(30)),
        chapter("Untracked", "untracked.md", None),
        chapter("Middle", "middle.md", Some(20)),
    ];
    let feed = AtomProcessor.run(&config, &finder, chapters).unwrap();
    assert_eq!(feed.title, "The Book");
    assert_eq!(feed.updated, 30);
    assert_eq!(feed.entries.len(), 2);
    assert_eq!(feed.entries[0].title, "Newest");
    assert_eq!(feed.entries[0].link.href, "https://example.com/book/index.html");
    assert_eq!(feed.entries[0].content.value, "&lt;p&gt;a &amp;lt; b&lt;/p&gt;\n");
    assert_eq!(feed.entries[1].title, "Middle");
    assert_eq!(feed.entries[1].link.href, "https://example.com/book/middle.html");
}

#[test]
fn a_run_without_previews_leaves_the_posts_without_content() {
    let config = AtomConfig::from_book_config(settings()).unwrap();
    let finder = PostFinder::new(vec![Timestamp::new(30, 0)]);
    let chapters = vec![chapter("Only", "only.md", Some(30))];
    let posts = finder.search(chapters, config.preview_limit(), 10, -1).unwrap();
    assert_eq!(posts[0].content, None);
    let feed = AtomProcessor.run(&config, &finder, vec![chapter("Only", "only.md", Some(30))]);
    assert_eq!(feed.unwrap().entries[0].content.value, "");
}

#[test]
fn a_run_over_a_book_without_history_fails() {
    let config = AtomConfig::from_book_config(settings()).unwrap();
    let finder = PostFinder::new(vec![Timestamp::new(30, 0)]);
    let chapters = vec![chapter("A", "a.md", None), chapter("B", "b.md", None)];
    assert_eq!(
        AtomProcessor.run(&config, &finder, chapters).unwrap_err(),
        AtomError::Search(SearchError::NoPosts)
    );
}

#[test]
fn a_run_that_selects_nothing_fails() {
    let mut given = settings();
    given.target_number_of_entries = Some(0);
    given.minimum_number_of_commits = Some(1);
    let config = AtomConfig::from_book_config(given).unwrap();
    let finder = PostFinder::new(vec![Timestamp::new(90, 0), Timestamp::new(10, 0)]);
    let chapters = vec![chapter("A", "a.md", Some(20)), chapter("B", "b.md", Some(30))];
    assert_eq!(
        AtomProcessor.run(&config, &finder, chapters).unwrap_err(),
        AtomError::NothingSelected
    );
}
