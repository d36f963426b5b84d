use fried_world::date::{is_on_or_before, Date};
use fried_world::lang::LocalMap;
use fried_world::page::{
    header_is_readable, page_body_text, page_path_for, render_page, scan_page_header,
    sort_pages_by_date, CorePageContext, IndexPageContext, MinimalPageContext, PageContext,
    PageData, PageInfo,
};

fn lines(text: &[&str]) -> Vec<String> {
    text.iter().map(|l| l.to_string()).collect()
}

fn info(path: &str, date: Option<Date>) -> PageInfo {
    PageInfo { path: path.to_string(), title: path.to_string(), date, lang: "fr".to_string() }
}

fn ymd(year: i32, month: u32, day: u32) -> Date {
    Date { year, month, day }
}

#[test]
fn header_with_date_lang_and_title() {
    let ls = lines(&["!date=2019-03-14\n", "!lang=en\n", "# Hello world\n", "Some text.\n"]);
    assert!(header_is_readable(&ls));
    let p = PageInfo::new("programming/hello", &ls);
    assert_eq!(p.path, "programming/hello");
    assert_eq!(p.title, "Hello world\n");
    assert_eq!(p.date, Some(ymd(2019, 3, 14)));
    assert_eq!(p.lang, "en");
}

#[test]
fn header_defaults() {
    let ls = lines(&["just text\n", "more text\n"]);
    let p = PageInfo::new("p", &ls);
    assert_eq!(p.title, "Untitled");
    assert_eq!(p.date, None);
    assert_eq!(p.lang, "fr");
    let h = scan_page_header(&ls);
    assert_eq!(h.end, 2);
    assert_eq!(page_body_text(&ls, h.end), "");
}

#[test]
fn header_lines_need_exact_lengths() {
    // no line end: 16 bytes, not a date line; 8 bytes, not a language line
    let ls = lines(&["!lang=ja", "!date=2019-03-14"]);
    let p = PageInfo::new("p", &ls);
    assert_eq!(p.date, None);
    assert_eq!(p.lang, "fr");
    let ls = lines(&["!lang=eng\n", "!date=2019-3-14\n", "#!\n"]);
    let p = PageInfo::new("p", &ls);
    assert_eq!(p.date, None);
    assert_eq!(p.lang, "fr");
    assert_eq!(p.title, "\n");
}

#[test]
fn last_header_line_wins_and_title_ends_header() {
    let ls = lines(&[
        "!lang=en\n",
        "!date=2018-01-02\n",
        "!lang=ja\n",
        "!date=2020-12-31\n",
        "#  Title\n",
        "!lang=de\n",
    ]);
    let p = PageInfo::new("p", &ls);
    assert_eq!(p.lang, "ja");
    assert_eq!(p.date, Some(ymd(2020, 12, 31)));
    assert_eq!(p.title, " Title\n");
    let h = scan_page_header(&ls);
    assert_eq!(h.end, 4);
    assert_eq!(h.date_text, Some("2020-12-31".to_string()));
    assert_eq!(page_body_text(&ls, h.end), "#  Title\n!lang=de\n");
}

#[test]
fn invalid_date_reads_as_none() {
    let ls = lines(&["!date=2019-02-30\n", "# T\n"]);
    assert_eq!(PageInfo::new("p", &ls).date, None);
    let ls = lines(&["!date=2019-03-14\n", "!date=abcdefghij\n", "# T\n"]);
    assert_eq!(PageInfo::new("p", &ls).date, None);
}

#[test]
fn unreadable_headers() {
    assert!(!header_is_readable(&lines(&["#"])));
    assert!(!header_is_readable(&lines(&["#é title\n"])));
    assert!(!header_is_readable(&lines(&["!lang=aé"])));
    assert!(!header_is_readable(&lines(&["!date=2019-03-0é"])));
    assert!(header_is_readable(&lines(&["# é\n", "#"])));
    assert!(header_is_readable(&lines(&[])));
}

#[test]
fn render_markdown_page() {
    let ls = lines(&["!date=2021-05-06\n", "# Title\n", "\n", "Some *text*.\n"]);
    let data = render_page("cat/page", &ls).unwrap();
    assert_eq!(data.info.title, "Title\n");
    assert_eq!(data.info.date, Some(ymd(2021, 5, 6)));
    assert_eq!(data.info.path, "cat/page");
    assert_eq!(data.content, "<h1>Title</h1>\n\n<p>Some <em>text</em>.</p>\n");
}

#[test]
fn render_page_without_title_has_empty_content() {
    let ls = lines(&["no title here\n"]);
    let data = render_page("x", &ls).unwrap();
    assert_eq!(data.info.title, "Untitled");
    assert_eq!(data.content, "");
}

#[test]
fn page_paths() {
    assert_eq!(page_path_for("hello.md"), Some("hello".to_string()));
    assert_eq!(page_path_for("japanese/wakaru/kana.md"), Some("japanese/wakaru/kana".to_string()));
    assert_eq!(page_path_for("a/b.tar.md"), Some("a/b.tar".to_string()));
    assert_eq!(page_path_for("a/.md"), None);
    assert_eq!(page_path_for(".md"), None);
    assert_eq!(page_path_for("notes.txt"), None);
    assert_eq!(page_path_for("md"), None);
    assert_eq!(page_path_for("x.MD"), None);
}

#[test]
fn sort_undated_first_then_latest_first() {
    let pages = vec![
        info("old", Some(ymd(2017, 5, 1))),
        info("none1", None),
        info("new", Some(ymd(2020, 1, 1))),
        info("mid", Some(ymd(2017, 12, 1))),
        info("none2", None),
        info("mid2", Some(ymd(2017, 5, 2))),
    ];
    let sorted = sort_pages_by_date(pages);
    let names: Vec<&str> = sorted.iter().map(|p| p.path.as_str()).collect();
    assert_eq!(names.len(), 6);
    assert!(names[0].starts_with("none") && names[1].starts_with("none"));
    assert_eq!(&names[2..], &["new", "mid", "mid2", "old"]);
    assert!(sort_pages_by_date(Vec::new()).is_empty());
}

#[test]
fn contexts() {
    let mut local = LocalMap::new();
    local.insert("hello".to_string(), "bonjour".to_string());
    let core = CorePageContext::new(&local, "/".to_string());
    assert_eq!(core.uri, "/");
    assert_eq!(core.locals.get("hello").unwrap(), "bonjour");
    let minimal = MinimalPageContext::new(CorePageContext::new(&local, "/x".to_string()));
    assert_eq!(minimal.core.uri, "/x");
    let data = PageData::new(info("p", None), "<p>x</p>".to_string());
    let page = PageContext::new(data, "japanese".to_string(), core);
    assert_eq!(page.category, "japanese");
    assert_eq!(page.page_data.content, "<p>x</p>");
    assert_eq!(page.core.uri, "/");
    let index = IndexPageContext::new(vec![info("a", None)], CorePageContext::new(&local, "/programming".to_string()));
    assert_eq!(index.pages.len(), 1);
    assert_eq!(index.core.uri, "/programming");
}

#[test]
fn dates_compare_by_day() {
    assert!(is_on_or_before(&ymd(2019, 3, 14), &ymd(2019, 3, 14)));
    assert!(is_on_or_before(&ymd(2018, 12, 31), &ymd(2019, 1, 1)));
    assert!(!is_on_or_before(&ymd(2019, 2, 1), &ymd(2019, 1, 31)));
}
