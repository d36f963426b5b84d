//! Pages written in markdown: the header lines at their top (`!date=`,
//! `!lang=`, and the `#` title line), the data that the templates show, and
//! the order in which a category lists its pages.
use vstd::prelude::*;

use crate::date::{date_le, is_on_or_before, parse_iso_date, parsed_iso_date, Date};
use crate::lang::LocalMap;
use crate::text::{
    byte_len, byte_len_is, chars_of, has_prefix, is_ascii_char, lemma_byte_len_ascii,
    lemma_byte_len_split, starts_with_chars,
};

verus! {

/// The characters of each line.
pub open spec fn line_views(lines: Seq<String>) -> Seq<Seq<char>> {
    lines.map_values(|l: String| l@)
}

/// The marker that begins a date line.
pub open spec fn date_marker() -> Seq<char> {
    seq!['!', 'd', 'a', 't', 'e', '=']
}

/// The marker that begins a language line.
pub open spec fn lang_marker() -> Seq<char> {
    seq!['!', 'l', 'a', 'n', 'g', '=']
}

/// The language of a page whose header names none.
pub open spec fn default_page_lang() -> Seq<char> {
    seq!['f', 'r']
}

/// The title of a page that has no title line.
pub open spec fn untitled() -> Seq<char> {
    seq!['U', 'n', 't', 'i', 't', 'l', 'e', 'd']
}

/// A line that begins with `#`: the page's title.
pub open spec fn is_title_line(line: Seq<char>) -> bool {
    line.len() > 0 && line[0] == '#'
}

/// A line `!date=` whose UTF-8 encoding is 17 bytes long: ten bytes of date
/// and one last character, the line's end.
pub open spec fn is_date_line(line: Seq<char>) -> bool {
    has_prefix(line, date_marker()) && byte_len(line) == 17
}

/// A line `!lang=` whose UTF-8 encoding is 9 bytes long: two bytes of
/// language and one last character, the line's end.
pub open spec fn is_lang_line(line: Seq<char>) -> bool {
    has_prefix(line, lang_marker()) && byte_len(line) == 9
}

/// What stands between a line's marker and its last character.
pub open spec fn marker_value(line: Seq<char>) -> Seq<char> {
    line.subrange(6, line.len() - 1)
}

/// `i` is where the header ends: the index of the first title line, or the
/// number of lines where there is none.
pub open spec fn is_header_end(ls: Seq<Seq<char>>, i: int) -> bool {
    &&& 0 <= i <= ls.len()
    &&& forall|j: int| 0 <= j < i ==> !is_title_line(#[trigger] ls[j])
    &&& i < ls.len() ==> is_title_line(ls[i])
}

/// Where the header of `ls` ends.
pub open spec fn header_end(ls: Seq<Seq<char>>) -> int {
    choose|i: int| is_header_end(ls, i)
}

/// The value of the last date line among the first `n` lines.
pub open spec fn last_date_text(ls: Seq<Seq<char>>, n: int) -> Option<Seq<char>>
    decreases n,
{
    if n <= 0 {
        None
    } else if is_date_line(ls[n - 1]) {
        Some(marker_value(ls[n - 1]))
    } else {
        last_date_text(ls, n - 1)
    }
}

/// The value of the last language line among the first `n` lines, or the
/// default language.
pub open spec fn last_lang(ls: Seq<Seq<char>>, n: int) -> Seq<char>
    decreases n,
{
    if n <= 0 {
        default_page_lang()
    } else if !is_date_line(ls[n - 1]) && is_lang_line(ls[n - 1]) {
        marker_value(ls[n - 1])
    } else {
        last_lang(ls, n - 1)
    }
}

/// The text of the last date line of the header, if it has one.
pub open spec fn header_date_text(ls: Seq<Seq<char>>) -> Option<Seq<char>> {
    last_date_text(ls, header_end(ls))
}

/// The date that the header gives the page.
pub open spec fn header_date(ls: Seq<Seq<char>>) -> Option<Date> {
    match header_date_text(ls) {
        Some(t) => parsed_iso_date(t),
        None => None,
    }
}

/// The language that the header gives the page.
pub open spec fn header_lang(ls: Seq<Seq<char>>) -> Seq<char> {
    last_lang(ls, header_end(ls))
}

/// The title: the title line without its first two characters, or `Untitled`.
pub open spec fn header_title(ls: Seq<Seq<char>>) -> Seq<char> {
    let e = header_end(ls);
    if e < ls.len() {
        ls[e].subrange(2, ls[e].len() as int)
    } else {
        untitled()
    }
}

/// The lines one after the other.
pub open spec fn concat_lines(ls: Seq<Seq<char>>) -> Seq<char>
    decreases ls.len(),
{
    if ls.len() == 0 {
        Seq::empty()
    } else {
        concat_lines(ls.drop_last()) + ls.last()
    }
}

proof fn lemma_concat_lines_first(ls: Seq<Seq<char>>)
    requires
        ls.len() > 0,
        ls[0].len() > 0,
    ensures
        concat_lines(ls).len() > 0,
        concat_lines(ls)[0] == ls[0][0],
    decreases ls.len(),
{
    if ls.len() == 1 {
        assert(ls.drop_last() =~= Seq::<Seq<char>>::empty());
        assert(concat_lines(ls.drop_last()) == Seq::<char>::empty());
        assert(concat_lines(ls) == concat_lines(ls.drop_last()) + ls.last());
        assert(concat_lines(ls) =~= ls[0]);
    } else {
        lemma_concat_lines_first(ls.drop_last());
    }
}

/// The page's markdown: from the title line to the end; nothing where there
/// is no title line.
pub open spec fn page_body(ls: Seq<Seq<char>>) -> Seq<char> {
    concat_lines(ls.subrange(header_end(ls), ls.len() as int))
}

/// The header lines can be read: each date and language line ends in an
/// ASCII character, and the title line has an ASCII second character.
pub open spec fn header_readable(ls: Seq<Seq<char>>) -> bool {
    let e = header_end(ls);
    &&& forall|i: int|
        0 <= i < e ==> (is_date_line(#[trigger] ls[i]) ==> is_ascii_char(ls[i].last())) && (
        is_lang_line(ls[i]) ==> is_ascii_char(ls[i].last()))
    &&& e < ls.len() ==> ls[e].len() >= 2 && is_ascii_char(ls[e][1])
}

proof fn lemma_header_end(ls: Seq<Seq<char>>, i: int)
    requires
        is_header_end(ls, i),
    ensures
        header_end(ls) == i,
{
    let j = header_end(ls);
    assert(is_header_end(ls, j));
    if j < i {
        assert(!is_title_line(ls[j]));
    }
    if i < j {
        assert(!is_title_line(ls[i]));
    }
}

proof fn lemma_marker_line_len(line: Seq<char>, marker: Seq<char>)
    requires
        marker.len() == 6,
        forall|k: int| 0 <= k < 6 ==> is_ascii_char(#[trigger] marker[k]),
        has_prefix(line, marker),
    ensures
        byte_len(line) == 6 + byte_len(line.skip(6)),
        line.len() == 6 ==> byte_len(line) == 6,
{
    lemma_byte_len_split(line, 6);
    assert(line.take(6) =~= marker);
    lemma_byte_len_ascii(marker);
    if line.len() == 6 {
        assert(line.skip(6) =~= Seq::<char>::empty());
    }
}

/// Where the header of `lines` ends.
fn find_header_end(lines: &Vec<String>) -> (e: usize)
    ensures
        e == header_end(line_views(lines@)),
        e <= lines@.len(),
{
    let ghost ls = line_views(lines@);
    let mut i: usize = 0;
    while i < lines.len()
        invariant
            ls == line_views(lines@),
            i <= lines@.len(),
            forall|j: int| 0 <= j < i ==> !is_title_line(#[trigger] ls[j]),
        decreases lines@.len() - i,
    {
        let cs = chars_of(lines[i].as_str());
        if cs.len() > 0 && cs[0] == '#' {
            proof {
                lemma_header_end(ls, i as int);
            }
            return i;
        }
        i = i + 1;
    }
    proof {
        lemma_header_end(ls, i as int);
    }
    i
}

/// Whether the header lines of `lines` can be read (see `header_readable`).
pub fn header_is_readable(lines: &Vec<String>) -> (r: bool)
    ensures
        r == header_readable(line_views(lines@)),
{
    let ghost ls = line_views(lines@);
    let e = find_header_end(lines);
    let date_m: Vec<char> = vec!['!', 'd', 'a', 't', 'e', '='];
    let lang_m: Vec<char> = vec!['!', 'l', 'a', 'n', 'g', '='];
    assert(date_m@ =~= date_marker());
    assert(lang_m@ =~= lang_marker());
    let mut i: usize = 0;
    while i < e
        invariant
            ls == line_views(lines@),
            e == header_end(ls),
            e <= lines@.len(),
            i <= e,
            date_m@ == date_marker(),
            lang_m@ == lang_marker(),
            forall|j: int|
                0 <= j < i ==> (is_date_line(#[trigger] ls[j]) ==> is_ascii_char(ls[j].last())) && (
                is_lang_line(ls[j]) ==> is_ascii_char(ls[j].last())),
        decreases e - i,
    {
        let cs = chars_of(lines[i].as_str());
        let dated = starts_with_chars(&cs, &date_m) && byte_len_is(&cs, 17);
        let langed = starts_with_chars(&cs, &lang_m) && byte_len_is(&cs, 9);
        assert(ls[i as int] == cs@);
        if dated || langed {
            if cs.len() == 0 || cs[cs.len() - 1] as u32 >= 128 {
                return false;
            }
        }
        i = i + 1;
    }
    if e < lines.len() {
        let cs = chars_of(lines[e].as_str());
        cs.len() >= 2 && (cs[1] as u32) < 128
    } else {
        true
    }
}

/// The header of a page, as its first lines give it.
pub struct PageHeader {
    /// The value of the last date line, if there is one.
    pub date_text: Option<String>,
    /// The value of the last language line, or `fr`.
    pub lang: String,
    /// The title, or `Untitled`.
    pub title: String,
    /// The index of the title line, or the number of lines.
    pub end: usize,
}

pub open spec fn opt_view(o: Option<String>) -> Option<Seq<char>> {
    match o {
        Some(s) => Some(s@),
        None => None,
    }
}

/// Reads the header of a page from its lines, each with its line end, as a
/// line reader gives them: until the first line that begins with `#`, the
/// lines `!date=YYYY-MM-DD` and `!lang=xx` (of exactly that many bytes, line
/// end included) set the date text and the language; the `#` line gives the
/// title, without its first two characters.
pub fn scan_page_header(lines: &Vec<String>) -> (h: PageHeader)
    requires
        header_readable(line_views(lines@)),
    ensures
        opt_view(h.date_text) == header_date_text(line_views(lines@)),
        h.lang@ == header_lang(line_views(lines@)),
        h.title@ == header_title(line_views(lines@)),
        h.end == header_end(line_views(lines@)),
{
    let ghost ls = line_views(lines@);
    let e = find_header_end(lines);
    let date_m: Vec<char> = vec!['!', 'd', 'a', 't', 'e', '='];
    let lang_m: Vec<char> = vec!['!', 'l', 'a', 'n', 'g', '='];
    assert(date_m@ =~= date_marker());
    assert(lang_m@ =~= lang_marker());
    let mut date_text: Option<String> = None;
    let mut lang: String = "fr".to_owned();
    proof {
        reveal_strlit("fr");
        assert(lang@ =~= default_page_lang());
    }
    let mut i: usize = 0;
    while i < e
        invariant
            ls == line_views(lines@),
            e == header_end(ls),
            e <= lines@.len(),
            header_readable(ls),
            i <= e,
            date_m@ == date_marker(),
            lang_m@ == lang_marker(),
            opt_view(date_text) == last_date_text(ls, i as int),
            lang@ == last_lang(ls, i as int),
        decreases e - i,
    {
        let line: &str = lines[i].as_str();
        let cs = chars_of(line);
        assert(ls[i as int] == cs@);
        if starts_with_chars(&cs, &date_m) {
            if byte_len_is(&cs, 17) {
                proof {
                    lemma_marker_line_len(cs@, date_marker());
                }
                let n = cs.len();
                date_text = Some(line.substring_char(6, n - 1).to_owned());
            }
        } else if starts_with_chars(&cs, &lang_m) {
            if byte_len_is(&cs, 9) {
                proof {
                    lemma_marker_line_len(cs@, lang_marker());
                }
                let n = cs.len();
                lang = line.substring_char(6, n - 1).to_owned();
            }
        }
        proof {
            if has_prefix(cs@, date_marker()) {
                assert(!has_prefix(cs@, lang_marker())) by {
                    assert(cs@.subrange(0, 6)[1] != lang_marker()[1]);
                }
            }
        }
        i = i + 1;
    }
    let title: String = if e < lines.len() {
        let line: &str = lines[e].as_str();
        let n = line.unicode_len();
        line.substring_char(2, n).to_owned()
    } else {
        proof {
            reveal_strlit("Untitled");
        }
        let t: String = "Untitled".to_owned();
        assert(t@ =~= untitled());
        t
    };
    PageHeader { date_text, lang, title, end: e }
}

/// The text of the page from its title line on, the lines one after the
/// other; empty where there is no title line.
pub fn page_body_text(lines: &Vec<String>, end: usize) -> (body: String)
    requires
        end == header_end(line_views(lines@)),
    ensures
        body@ == page_body(line_views(lines@)),
{
    let ghost ls = line_views(lines@);
    proof {
        lemma_header_end_bound(ls);
    }
    let mut body: String = String::new();
    let mut j: usize = end;
    proof {
        assert(ls.subrange(end as int, end as int) =~= Seq::<Seq<char>>::empty());
    }
    while j < lines.len()
        invariant
            ls == line_views(lines@),
            end <= j <= lines@.len(),
            body@ == concat_lines(ls.subrange(end as int, j as int)),
        decreases lines@.len() - j,
    {
        body.append(lines[j].as_str());
        proof {
            assert(ls.subrange(end as int, j + 1).drop_last() =~= ls.subrange(end as int, j as int));
        }
        j = j + 1;
    }
    assert(ls.subrange(end as int, j as int) =~= ls.subrange(end as int, ls.len() as int));
    body
}

proof fn lemma_header_end_bound(ls: Seq<Seq<char>>)
    ensures
        0 <= header_end(ls) <= ls.len(),
{
    lemma_first_title_exists(ls);
}

proof fn lemma_first_title(ls: Seq<Seq<char>>, k: int)
    requires
        0 <= k < ls.len(),
        is_title_line(ls[k]),
    ensures
        exists|i: int| is_header_end(ls, i),
    decreases k,
{
    if exists|j: int| 0 <= j < k && is_title_line(ls[j]) {
        let j = choose|j: int| 0 <= j < k && is_title_line(ls[j]);
        lemma_first_title(ls, j);
    } else {
        assert(is_header_end(ls, k));
    }
}

/// What a listing knows of a page: where it is, its title, its date and its
/// language.
#[derive(Clone, Debug)]
pub struct PageInfo {
    pub path: String,
    pub title: String,
    pub date: Option<Date>,
    pub lang: String,
}

impl PageInfo {
    /// The information of the page at `path` whose header is `header` and
    /// whose date text reads as `date`.
    pub fn from_header(path: &str, header: PageHeader, date: Option<Date>) -> (p: PageInfo)
        ensures
            p.path@ == path@,
            p.title@ == header.title@,
            p.date == date,
            p.lang@ == header.lang@,
    {
        PageInfo { path: path.to_owned(), title: header.title, date, lang: header.lang }
    }

    /// The information of the page at `path` whose lines are `lines`: its
    /// title, date and language as its header gives them.
    pub fn new(path: &str, lines: &Vec<String>) -> (p: PageInfo)
        requires
            header_readable(line_views(lines@)),
        ensures
            p.path@ == path@,
            p.title@ == header_title(line_views(lines@)),
            p.date == header_date(line_views(lines@)),
            p.lang@ == header_lang(line_views(lines@)),
    {
        let header = scan_page_header(lines);
        let date = match &header.date_text {
            Some(t) => parse_iso_date(t.as_str()),
            None => None,
        };
        PageInfo::from_header(path, header, date)
    }
}

/// The HTML that hoedown renders from the markdown `source`, with no
/// extension and no renderer flag, if that HTML is valid UTF-8.
pub uninterp spec fn markdown_html(source: Seq<char>) -> Option<Seq<char>>;

/// Renders markdown to HTML with hoedown (`Markdown::new`, then
/// `Render::render` of an `Html` renderer made with no flags and nesting level
/// 0, then `Buffer::to_str`). Claimed: the result depends on the source alone,
/// and is named `markdown_html`; hoedown's rendering is not restated.
/// Required: the source begins with `#`. On a source of which hoedown's first
/// pass keeps no byte (such as an empty one), its buffers get no storage and
/// reading them makes a slice from a null pointer, which never returns.
#[verifier::external_body]
fn render_markdown(source: &str) -> (r: Option<String>)
    requires
        source@.len() > 0,
        source@[0] == '#',
    ensures
        opt_view(r) == markdown_html(source@),
{
    let markdown = hoedown::Markdown::new(source);
    let mut html = hoedown::Html::new(hoedown::renderer::html::Flags::empty(), 0);
    match hoedown::Render::render(&mut html, &markdown).to_str() {
        Ok(text) => Some(text.to_owned()),
        Err(_) => None,
    }
}

/// A page ready to be shown: its information and its content as HTML.
#[derive(Clone, Debug)]
pub struct PageData {
    pub info: PageInfo,
    pub content: String,
}

impl PageData {
    pub fn new(info: PageInfo, content: String) -> (d: PageData)
        ensures
            d.info == info,
            d.content == content,
    {
        PageData { info, content }
    }
}

/// The HTML of a page whose markdown body is `body`: nothing for an empty
/// body, else what hoedown renders. An empty body is not handed to hoedown:
/// its HTML output is then an empty buffer without storage, and reading that
/// buffer (`Buffer::to_str`) builds a slice from a null pointer, which Rust
/// refuses.
pub open spec fn page_html(body: Seq<char>) -> Option<Seq<char>> {
    if body.len() == 0 {
        Some(Seq::empty())
    } else {
        markdown_html(body)
    }
}

/// The page at `path` whose lines are `lines`: its header information, and
/// its body (from the title line on) rendered from markdown to HTML. `None`
/// where the rendered HTML is not valid UTF-8.
pub fn render_page(path: &str, lines: &Vec<String>) -> (r: Option<PageData>)
    requires
        header_readable(line_views(lines@)),
    ensures
        match r {
            Some(d) => {
                &&& d.info.path@ == path@
                &&& d.info.title@ == header_title(line_views(lines@))
                &&& d.info.date == header_date(line_views(lines@))
                &&& d.info.lang@ == header_lang(line_views(lines@))
                &&& page_html(page_body(line_views(lines@))) == Some(d.content@)
            },
            None => page_html(page_body(line_views(lines@))) is None,
        },
{
    let header = scan_page_header(lines);
    let body = page_body_text(lines, header.end);
    let date = match &header.date_text {
        Some(t) => parse_iso_date(t.as_str()),
        None => None,
    };
    let info = PageInfo::from_header(path, header, date);
    if body.as_str().is_empty() {
        return Some(PageData::new(info, String::new()));
    }
    proof {
        let ls = line_views(lines@);
        lemma_header_end_bound(ls);
        lemma_first_title_exists(ls);
        let e = header_end(ls);
        if e == ls.len() {
            assert(ls.subrange(e, ls.len() as int) =~= Seq::<Seq<char>>::empty());
        } else {
            lemma_concat_lines_first(ls.subrange(e, ls.len() as int));
        }
    }
    match render_markdown(body.as_str()) {
        Some(html) => Some(PageData::new(info, html)),
        None => None,
    }
}

/// The page that the path `relative` (to the pages' folder) holds: the path
/// without its `.md` extension. `None` where the file name has no `md`
/// extension: it does not end in `.md`, or nothing comes before the `.md`.
pub open spec fn page_path_of(relative: Seq<char>) -> Option<Seq<char>> {
    let n = relative.len();
    if n >= 4 && relative.subrange(n - 3, n as int) == seq!['.', 'm', 'd'] && relative[n - 4] != '/' {
        Some(relative.subrange(0, n - 3))
    } else {
        None
    }
}

/// The page path under which a markdown file is listed, from its path
/// relative to the pages' folder (see `page_path_of`).
pub fn page_path_for(relative: &str) -> (r: Option<String>)
    ensures
        opt_view(r) == page_path_of(relative@),
{
    let cs = chars_of(relative);
    let n = cs.len();
    if n >= 4 && cs[n - 3] == '.' && cs[n - 2] == 'm' && cs[n - 1] == 'd' && cs[n - 4] != '/' {
        assert(cs@.subrange(n - 3, n as int) =~= seq!['.', 'm', 'd']);
        Some(relative.substring_char(0, n - 3).to_owned())
    } else {
        proof {
            if n >= 4 && cs@.subrange(n - 3, n as int) == seq!['.', 'm', 'd'] {
                assert(cs@.subrange(n - 3, n as int)[0] == cs@[n - 3]);
                assert(cs@.subrange(n - 3, n as int)[1] == cs@[n - 2]);
                assert(cs@.subrange(n - 3, n as int)[2] == cs@[n - 1]);
            }
        }
        None
    }
}

/// `a` may be listed before `b`: pages without a date come first, then the
/// dated ones from the latest to the earliest.
pub open spec fn listed_before(a: Option<Date>, b: Option<Date>) -> bool {
    match (a, b) {
        (None, _) => true,
        (Some(_), None) => false,
        (Some(x), Some(y)) => date_le(y, x),
    }
}

/// The pages are in listing order.
pub open spec fn in_listing_order(s: Seq<PageInfo>) -> bool {
    forall|i: int, j: int| 0 <= i < j < s.len() ==> listed_before(s[i].date, s[j].date)
}

fn is_listed_before(a: &Option<Date>, b: &Option<Date>) -> (r: bool)
    ensures
        r == listed_before(*a, *b),
{
    match (a, b) {
        (None, _) => true,
        (Some(_), None) => false,
        (Some(x), Some(y)) => is_on_or_before(y, x),
    }
}

proof fn lemma_listed_before_total(a: Option<Date>, b: Option<Date>)
    ensures
        listed_before(a, b) || listed_before(b, a),
{
}

proof fn lemma_listed_before_transitive(a: Option<Date>, b: Option<Date>, c: Option<Date>)
    requires
        listed_before(a, b),
        listed_before(b, c),
    ensures
        listed_before(a, c),
{
}

/// Sorts pages for a category's index: the pages without a date first, then
/// the dated ones from the latest to the earliest. The order among pages
/// that share a date, or that have none, is left open.
pub fn sort_pages_by_date(pages: Vec<PageInfo>) -> (r: Vec<PageInfo>)
    ensures
        r@.to_multiset() == pages@.to_multiset(),
        in_listing_order(r@),
{
    broadcast use vstd::seq_lib::group_to_multiset_ensures;

    let mut rest = pages;
    let mut sorted: Vec<PageInfo> = Vec::new();
    while rest.len() > 0
        invariant
            sorted@.to_multiset().add(rest@.to_multiset()) == pages@.to_multiset(),
            in_listing_order(sorted@),
        decreases rest@.len(),
    {
        let ghost before = rest@;
        let page = rest.pop().unwrap();
        assert(before =~= rest@.push(page));
        let mut idx: usize = 0;
        while idx < sorted.len() && is_listed_before(&sorted[idx].date, &page.date)
            invariant
                idx <= sorted@.len(),
                forall|k: int| 0 <= k < idx ==> listed_before(#[trigger] sorted@[k].date, page.date),
            decreases sorted@.len() - idx,
        {
            idx = idx + 1;
        }
        let ghost old_sorted = sorted@;
        proof {
            if idx < old_sorted.len() {
                lemma_listed_before_total(old_sorted[idx as int].date, page.date);
                assert forall|j: int| idx <= j < old_sorted.len() implies listed_before(
                    page.date,
                    #[trigger] old_sorted[j].date,
                ) by {
                    if j > idx {
                        lemma_listed_before_transitive(
                            page.date,
                            old_sorted[idx as int].date,
                            old_sorted[j].date,
                        );
                    }
                }
            }
        }
        sorted.insert(idx, page);
        proof {
            assert(sorted@.remove(idx as int) =~= old_sorted);
            assert(sorted@[idx as int] == page);
            let ms = sorted@.to_multiset();
            sorted@.to_multiset_ensures();
            rest@.to_multiset_ensures();
            assert(sorted@.remove(idx as int).to_multiset() =~= ms.remove(sorted@[idx as int]));
            assert(old_sorted.to_multiset() =~= ms.remove(page));
            assert(sorted@.contains(page));
            assert(ms.count(page) > 0);
            assert(ms =~= old_sorted.to_multiset().insert(page));
            assert(before.to_multiset() =~= rest@.to_multiset().insert(page));
            assert(ms.add(rest@.to_multiset()) =~= old_sorted.to_multiset().add(before.to_multiset()));
            assert forall|i: int, j: int| 0 <= i < j < sorted@.len() implies listed_before(
                sorted@[i].date,
                sorted@[j].date,
            ) by {
                if j < idx {
                    assert(sorted@[i] == old_sorted[i] && sorted@[j] == old_sorted[j]);
                } else if j == idx {
                    assert(sorted@[i] == old_sorted[i]);
                } else if i == idx {
                    assert(sorted@[j] == old_sorted[j - 1]);
                } else if i < idx {
                    assert(sorted@[i] == old_sorted[i] && sorted@[j] == old_sorted[j - 1]);
                } else {
                    assert(sorted@[i] == old_sorted[i - 1] && sorted@[j] == old_sorted[j - 1]);
                }
            }
        }
    }
    assert(rest@.to_multiset() =~= vstd::multiset::Multiset::empty());
    sorted
}

/// What every page template gets: the localized texts and the page's URI.
pub struct CorePageContext<'a> {
    pub locals: &'a LocalMap,
    pub uri: String,
}

impl<'a> CorePageContext<'a> {
    pub fn new(local_map: &'a LocalMap, uri: String) -> (c: CorePageContext<'a>)
        ensures
            c.locals == local_map,
            c.uri == uri,
    {
        CorePageContext { locals: local_map, uri }
    }
}

/// What the template of a page gets.
pub struct PageContext<'a> {
    pub page_data: PageData,
    pub category: String,
    pub core: CorePageContext<'a>,
}

impl<'a> PageContext<'a> {
    pub fn new(page_data: PageData, category: String, core: CorePageContext<'a>) -> (c: PageContext<'a>)
        ensures
            c.page_data == page_data,
            c.category == category,
            c.core == core,
    {
        PageContext { page_data, category, core }
    }
}

/// What the template of a category's index gets.
pub struct IndexPageContext<'a> {
    pub pages: Vec<PageInfo>,
    pub core: CorePageContext<'a>,
}

impl<'a> IndexPageContext<'a> {
    pub fn new(pages: Vec<PageInfo>, core: CorePageContext<'a>) -> (c: IndexPageContext<'a>)
        ensures
            c.pages == pages,
            c.core == core,
    {
        IndexPageContext { pages, core }
    }
}

/// What a template that shows no page data gets.
pub struct MinimalPageContext<'a> {
    pub core: CorePageContext<'a>,
}

impl<'a> MinimalPageContext<'a> {
    pub fn new(core: CorePageContext<'a>) -> (c: MinimalPageContext<'a>)
        ensures
            c.core == core,
    {
        MinimalPageContext { core }
    }
}

proof fn lemma_same_prefix_texts(ls: Seq<Seq<char>>, other: Seq<Seq<char>>, n: int)
    requires
        0 <= n <= ls.len(),
        n <= other.len(),
        forall|j: int| 0 <= j < n ==> ls[j] == other[j],
    ensures
        last_date_text(ls, n) == last_date_text(other, n),
        last_lang(ls, n) == last_lang(other, n),
    decreases n,
{
    if n > 0 {
        lemma_same_prefix_texts(ls, other, n - 1);
    }
}

/// The header of a page is read from its lines up to its title line: the
/// lines after the title line change nothing of its title, date or language.
pub proof fn law_header_ignores_body(ls: Seq<Seq<char>>, other: Seq<Seq<char>>)
    requires
        header_end(ls) < ls.len(),
        header_end(ls) < other.len(),
        forall|j: int| 0 <= j <= header_end(ls) ==> ls[j] == other[j],
    ensures
        header_end(other) == header_end(ls),
        header_title(other) == header_title(ls),
        header_date(other) == header_date(ls),
        header_lang(other) == header_lang(ls),
{
    let e = header_end(ls);
    lemma_header_end_bound(ls);
    assert(is_header_end(ls, e)) by {
        lemma_first_title_exists(ls);
    }
    assert(is_header_end(other, e)) by {
        assert forall|j: int| 0 <= j < e implies !is_title_line(#[trigger] other[j]) by {
            assert(ls[j] == other[j]);
            assert(!is_title_line(ls[j]));
        }
        assert(other[e] == ls[e]);
    }
    lemma_header_end(other, e);
    lemma_same_prefix_texts(ls, other, e);
}

proof fn lemma_first_title_exists(ls: Seq<Seq<char>>)
    ensures
        is_header_end(ls, header_end(ls)),
{
    if exists|k: int| 0 <= k < ls.len() && is_title_line(ls[k]) {
        let k = choose|k: int| 0 <= k < ls.len() && is_title_line(ls[k]);
        lemma_first_title(ls, k);
    } else {
        assert(is_header_end(ls, ls.len() as int));
    }
}

/// A page path, written back with its `.md` extension, is listed under
/// that same page path.
pub proof fn law_page_path_round_trip(path: Seq<char>)
    requires
        path.len() > 0,
        path.last() != '/',
    ensures
        page_path_of(path + seq!['.', 'm', 'd']) == Some(path),
{
    let full = path + seq!['.', 'm', 'd'];
    let n = full.len();
    assert(full.subrange(n - 3, n as int) =~= seq!['.', 'm', 'd']);
    assert(full[n - 4] == path.last());
    assert(full.subrange(0, n - 3) =~= path);
}

/// The markdown file of the page `page_name` in the folder `folder`: the
/// folder, the page name, and the `.md` extension, one after the other.
pub fn page_file_path(folder: &str, page_name: &str) -> (p: String)
    ensures
        p@ == folder@ + page_name@ + seq!['.', 'm', 'd'],
{
    proof {
        reveal_strlit(".md");
    }
    let mut p: String = folder.to_owned();
    p.append(page_name);
    p.append(".md");
    assert(".md"@ =~= seq!['.', 'm', 'd']);
    p
}

/// In a listing order, of two dated pages with different dates, the one with
/// the later date comes first: a later year, or the same year and a later
/// month, or the same month and a later day.
pub proof fn law_listing_puts_later_dates_first(s: Seq<PageInfo>, i: int, j: int, x: Date, y: Date)
    requires
        in_listing_order(s),
        0 <= i < j < s.len(),
        s[i].date == Some(x),
        s[j].date == Some(y),
        x != y,
    ensures
        x.year > y.year || (x.year == y.year && x.month > y.month) || (x.year == y.year
            && x.month == y.month && x.day > y.day),
{
    assert(listed_before(s[i].date, s[j].date));
    crate::date::law_date_order_by_year_month_day(y, x);
    crate::date::law_date_order_is_total(y, x, x);
}

/// The lines one after the other are their flattening: every line, blank
/// ones included, appended in order.
pub proof fn law_concat_lines_is_flatten(ls: Seq<Seq<char>>)
    ensures
        concat_lines(ls) == ls.flatten(),
        concat_lines(ls).len() == ls.flatten().len(),
    decreases ls.len(),
{
    if ls.len() > 0 {
        law_concat_lines_is_flatten(ls.drop_last());
        assert(ls.drop_last().push(ls.last()) =~= ls);
        ls.drop_last().lemma_flatten_push(ls.last());
    } else {
        assert(ls.flatten() =~= Seq::<char>::empty());
    }
}

/// Appending a line to the lines appends its text, whatever it holds.
pub proof fn law_concat_lines_push(ls: Seq<Seq<char>>, line: Seq<char>)
    ensures
        concat_lines(ls.push(line)) == concat_lines(ls) + line,
{
    assert(ls.push(line).drop_last() =~= ls);
}

/// A page's body is exactly the text of its lines from the title line on,
/// blank lines included, in order.
pub proof fn law_body_is_text_from_title(ls: Seq<Seq<char>>)
    ensures
        page_body(ls) == ls.subrange(header_end(ls), ls.len() as int).flatten(),
{
    law_concat_lines_is_flatten(ls.subrange(header_end(ls), ls.len() as int));
}

/// Whether a page's header can be read depends on its lines up to the title
/// line alone: the lines after the title line change nothing of it.
pub proof fn law_readability_ignores_body(ls: Seq<Seq<char>>, other: Seq<Seq<char>>)
    requires
        header_end(ls) < ls.len(),
        header_end(ls) < other.len(),
        forall|j: int| 0 <= j <= header_end(ls) ==> ls[j] == other[j],
    ensures
        header_readable(other) == header_readable(ls),
{
    law_header_ignores_body(ls, other);
    lemma_header_end_bound(ls);
    let e = header_end(ls);
    assert forall|i: int| 0 <= i < e implies #[trigger] other[i] == ls[i] by {}
    assert(other[e] == ls[e]);
}

/// A page whose header lines are readable and whose body is any text at all
/// (accents, other scripts) is readable.
pub proof fn law_any_body_is_readable(header: Seq<Seq<char>>, body: Seq<Seq<char>>)
    requires
        header.len() > 0,
        header_end(header) == header.len() - 1,
        header_readable(header),
    ensures
        header_readable(header + body),
{
    let ls = header + body;
    assert forall|j: int| 0 <= j <= header_end(header) implies header[j] == ls[j] by {}
    law_readability_ignores_body(header, ls);
}

} // verus!
