use mdbook_git_atom::author::BlameRecord;
use mdbook_git_atom::config::{BookSettings, ConfigError};
use mdbook_git_atom::post_finder::{Chapter, SearchError, TrackedChapter};
use mdbook_git_atom::time::{format_date, Timestamp};
use mdbook_git_atom::updated_processor::{
    format_list_line, substitute, UpdatedConfig, UpdatedError, MARKER,
};
use mdbook_git_atom::{Post, PostFinder, UpdatedProcessor};

fn post(title: &str, path: &str, seconds: i64) -> Post {
    Post {
        path: path.to_string(),
        last_modified: Timestamp::new(seconds, 0),
        created: Timestamp::new(seconds, 0),
        authors: Vec::new(),
        title: title.to_string(),
        id: path.to_string(),
        content: None,
    }
}

fn posts() -> Vec<Post> {
    vec![post("Guide", "docs/guide.md", 1700000000), post("Intro", "README.md", 951782400)]
}

const LISTING: &str = "- [Guide](/docs/guide.md) (2023-11-14)\n- [Intro](/README.md) (2000-02-29)\n";

fn settings() -> BookSettings {
    BookSettings {
        has_section: true,
        base_url: None,
        minimum_number_of_commits: None,
        article_preview_lines: None,
        target_number_of_entries: None,
        title: None,
        content_path: String::from("src"),
        root_path: String::from("/work/book"),
    }
}

fn chapter(name: &str, path: &str, seconds: Option<i64>) -> TrackedChapter {
    TrackedChapter {
        chapter: Chapter {
            name: name.to_string(),
            source_path: Some(path.to_string()),
            path: Some(path.to_string()),
        },
        history: seconds.map(|s| {
            vec![BlameRecord {
                name: Some(String::from("Ann")),
                email: None,
                when: Timestamp::new(s, 0),
            }]
        }),
        source: String::new(),
    }
}

#[test]
fn a_date_is_written_as_year_month_day() {
    assert_eq!(format_date(2023, 11, 14), "2023-11-14");
    assert_eq!(format_date(2000, 2, 29), "2000-02-29");
    assert_eq!(format_date(1970, 1, 1), "1970-01-01");
    assert_eq!(format_date(987, 6, 5), "0987-06-05");
    assert_eq!(format_date(0, 12, 31), "0000-12-31");
    assert_eq!(format_date(9999, 12, 31), "9999-12-31");
}

#[test]
fn a_year_out_of_four_digits_carries_its_sign() {
    assert_eq!(format_date(10000, 1, 1), "+10000-01-01");
    assert_eq!(format_date(262142, 12, 31), "+262142-12-31");
    assert_eq!(format_date(-1, 12, 31), "-0001-12-31");
    assert_eq!(format_date(-262143, 1, 1), "-262143-01-01");
    assert_eq!(format_date(i32::MIN, 1, 1), "-2147483648-01-01");
}

#[test]
fn the_date_of_a_timestamp_is_taken_in_utc() {
    assert_eq!(Timestamp::new(0, 0).utc_date_text(), Some(String::from("1970-01-01")));
    assert_eq!(Timestamp::new(-1, 0).utc_date_text(), Some(String::from("1969-12-31")));
    assert_eq!(Timestamp::new(1700000000, 0).utc_date_text(), Some(String::from("2023-11-14")));
    assert_eq!(Timestamp::new(1700000000, 600).utc_date_text(), Some(String::from("2023-11-14")));
    assert_eq!(Timestamp::new(951782400, 0).utc_date_text(), Some(String::from("2000-02-29")));
    assert_eq!(Timestamp::new(951782399, 0).utc_date_text(), Some(String::from("2000-02-28")));
    assert_eq!(Timestamp::new(253402300799, 0).utc_date_text(), Some(String::from("9999-12-31")));
    assert_eq!(
        Timestamp::new(253402300800, 0).utc_date_text(),
        Some(String::from("+10000-01-01"))
    );
    assert_eq!(Timestamp::new(-62167219200, 0).utc_date_text(), Some(String::from("0000-01-01")));
    assert_eq!(Timestamp::new(-62167219201, 0).utc_date_text(), Some(String::from("-0001-12-31")));
}

#[test]
fn a_timestamp_beyond_the_calendar_has_no_date() {
    assert_eq!(Timestamp::new(i64::MAX, 0).utc_date_text(), None);
    assert_eq!(Timestamp::new(i64::MIN, 0).utc_date_text(), None);
    assert_eq!(post("T", "t.md", i64::MAX).list_link(), None);
}

#[test]
fn the_dates_are_those_that_the_calendar_formats() {
    let seconds: [i64; 9] = [
        0,
        86399,
        86400,
        -86401,
        1431648000,
        4102444800,
        253402300800,
        -62167219201,
        -99999999999999,
    ];
    for s in seconds {
        let expected = chrono::DateTime::from_timestamp(s, 0).map(|t| t.format("%Y-%m-%d").to_string());
        assert_eq!(Timestamp::new(s, 0).utc_date_text(), expected);
    }
}

#[test]
fn a_line_links_the_title_to_the_page_from_the_root() {
    assert_eq!(
        post("Guide", "docs/guide.md", 1700000000).list_link(),
        Some(String::from("- [Guide](/docs/guide.md) (2023-11-14)"))
    );
    assert_eq!(format_list_line("T", "p", "d"), "- [T](/p) (d)");
    assert_eq!(format_list_line("", "", ""), "- [](/) ()");
}

#[test]
fn the_listing_has_a_line_for_each_post() {
    assert_eq!(UpdatedProcessor.generate_markdown(&posts(), ""), Some(String::from(LISTING)));
    assert_eq!(
        UpdatedProcessor.generate_markdown(&posts(), "  "),
        Some(String::from(
            "  - [Guide](/docs/guide.md) (2023-11-14)\n  - [Intro](/README.md) (2000-02-29)\n"
        ))
    );
    assert_eq!(UpdatedProcessor.generate_markdown(&Vec::new(), "> "), Some(String::new()));
}

#[test]
fn a_post_beyond_the_calendar_leaves_no_listing() {
    let all = vec![post("A", "a.md", 0), post("B", "b.md", i64::MAX), post("C", "c.md", 0)];
    assert_eq!(UpdatedProcessor.generate_markdown(&all, ""), None);
}

#[test]
fn both_markers_are_replaced_and_the_text_around_them_is_kept() {
    let content = "# Title\n\nbefore {{#recently_updated}} between\n{{#recently_updated}}\nafter \u{e9}\n";
    let expected = format!("# Title\n\nbefore {} between\n{}\nafter \u{e9}\n", LISTING, LISTING);
    assert_eq!(UpdatedProcessor.process_chapter(content, &posts()), Some(expected));
}

#[test]
fn a_page_without_a_marker_is_left_as_it_is() {
    let content = "no marker {{#recently_updated} here {#recently_updated}}\n";
    assert_eq!(UpdatedProcessor.process_chapter(content, &posts()), Some(content.to_string()));
    assert_eq!(UpdatedProcessor.process_chapter("", &posts()), Some(String::new()));
    let beyond = vec![post("B", "b.md", i64::MAX)];
    assert_eq!(UpdatedProcessor.process_chapter(content, &beyond), Some(content.to_string()));
}

#[test]
fn a_marker_cannot_be_replaced_without_a_listing() {
    let beyond = vec![post("B", "b.md", i64::MAX)];
    assert_eq!(UpdatedProcessor.process_chapter("x {{#recently_updated}} y", &beyond), None);
}

#[test]
fn a_marker_at_either_end_is_replaced() {
    assert_eq!(
        UpdatedProcessor.process_chapter("{{#recently_updated}}", &posts()),
        Some(String::from(LISTING))
    );
    assert_eq!(
        UpdatedProcessor.process_chapter("{{#recently_updated}}{{#recently_updated}}", &posts()),
        Some(format!("{}{}", LISTING, LISTING))
    );
    assert_eq!(
        UpdatedProcessor.process_chapter("{{{#recently_updated}}}", &posts()),
        Some(format!("{{{}}}", LISTING))
    );
    assert_eq!(
        UpdatedProcessor.process_chapter("a{{#recently_updated}}", &Vec::new()),
        Some(String::from("a"))
    );
}

#[test]
fn occurrences_are_taken_from_the_left_and_do_not_overlap() {
    assert_eq!(substitute("aaaa", "aa", "b"), "bb");
    assert_eq!(substitute("aaa", "aa", "b"), "ba");
    assert_eq!(substitute("abab", "ab", "abab"), "abababab");
    assert_eq!(substitute("xyz", "", "b"), "xyz");
    assert_eq!(substitute("xyz", "xyz", ""), "");
    assert_eq!(substitute("", "a", "b"), "");
    assert_eq!(substitute("\u{e9}a\u{e9}", "\u{e9}", "e"), "eae");
}

#[test]
fn the_marker_is_found_where_the_pattern_matches() {
    let pattern = regex::Regex::new(r"\{\{#recently_updated}}").unwrap();
    let contents = [
        "",
        "plain",
        "{{#recently_updated}}",
        "a {{#recently_updated}} b {{#recently_updated}}",
        "{{{{#recently_updated}}}}",
        "{{#recently_updated}{{#recently_updated}}",
        "\u{4e2d}{{#recently_updated}}\u{6587}",
    ];
    for content in contents {
        let expected = pattern.replace_all(content, regex::NoExpand("<list>")).to_string();
        assert_eq!(substitute(content, MARKER, "<list>"), expected);
    }
}

#[test]
fn the_listing_settings_have_a_default() {
    let config = UpdatedConfig::from_book_config(settings()).unwrap();
    assert_eq!(config.content_path, "src");
    assert_eq!(config.root_path, "/work/book");
    assert_eq!(config.target_number_of_entries, 10);
    let mut given = settings();
    given.target_number_of_entries = Some(-1);
    assert_eq!(UpdatedConfig::from_book_config(given).unwrap().target_number_of_entries, -1);
}

#[test]
fn the_listing_settings_are_checked() {
    let mut given = settings();
    given.has_section = false;
    given.target_number_of_entries = Some(-9);
    assert_eq!(UpdatedConfig::from_book_config(given).unwrap_err(), ConfigError::MissingSection);
    let mut given = settings();
    given.target_number_of_entries = Some(-2);
    assert_eq!(
        UpdatedConfig::from_book_config(given).unwrap_err(),
        ConfigError::InvalidTargetEntries
    );
}

#[test]
fn the_listing_preprocessor_runs_for_html() {
    assert_eq!(UpdatedProcessor.name(), "git-updated");
    assert!(UpdatedProcessor.supports_renderer("html"));
    assert!(!UpdatedProcessor.supports_renderer("epub"));
}

#[test]
fn a_run_rewrites_every_page() {
    let mut given = settings();
    given.target_number_of_entries = Some(2);
    let config = UpdatedConfig::from_book_config(given).unwrap();
    let finder = PostFinder::new(vec![Timestamp::new(1700000000, 0), Timestamp::new(0, 0)]);
    let chapters = vec![
        chapter("Old", "old.md", Some(86400)),
        chapter("Guide", "docs/guide.md", Some(1700000000)),
        chapter("Intro", "README.md", Some(951782400)),
    ];
    let contents = vec![
        String::from("start\n{{#recently_updated}}end"),
        String::from("nothing here"),
    ];
    let pages = UpdatedProcessor.run(&config, &finder, chapters, &contents).unwrap();
    assert_eq!(pages, vec![format!("start\n{}end", LISTING), String::from("nothing here")]);
}

#[test]
fn a_listing_run_over_a_book_without_history_fails() {
    let config = UpdatedConfig::from_book_config(settings()).unwrap();
    let finder = PostFinder::new(vec![Timestamp::new(5, 0)]);
    let chapters = vec![chapter("A", "a.md", None)];
    assert_eq!(
        UpdatedProcessor.run(&config, &finder, chapters, &Vec::new()).unwrap_err(),
        UpdatedError::Search(SearchError::NoPosts)
    );
}

#[test]
fn a_listing_run_that_selects_nothing_fails() {
    let config = UpdatedConfig::from_book_config(settings()).unwrap();
    let finder = PostFinder::new(vec![Timestamp::new(90, 0)]);
    let chapters = vec![chapter("A", "a.md", Some(20)), chapter("B", "b.md", Some(30))];
    let contents = vec![String::from("no marker")];
    assert_eq!(
        UpdatedProcessor.run(&config, &finder, chapters, &contents).unwrap_err(),
        UpdatedError::NothingSelected
    );
}

#[test]
fn a_run_fails_where_a_listed_date_is_beyond_the_calendar() {
    let config = UpdatedConfig::from_book_config(settings()).unwrap();
    let finder = PostFinder::new(vec![Timestamp::new(5, 0)]);
    let chapters = vec![chapter("A", "a.md", Some(i64::MAX))];
    let contents = vec![String::from("{{#recently_updated}}")];
    assert_eq!(
        UpdatedProcessor.run(&config, &finder, chapters, &contents).unwrap_err(),
        UpdatedError::DateOutOfRange
    );
}
