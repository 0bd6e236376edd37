use koxinga::browser::{body_output, KeyOutcome, KoxingaBrowser, Mode};
use koxinga::keys::{digit_key, read_number, try_read_number};
use koxinga::page::{display_text, label_of, lay_out, try_lay_out};
use koxinga::text::{chars_of, handle_escaped, is_whitespace, replace_all, string_of, to_decimal, trim};
use koxinga::url::{check_unquote, get_base_url, resolve_link};
use koxinga::xml::{parse, OutputType};

const ENTER: char = '\u{10602}';
const BACKSPACE: char = '\u{10601}';
const ESCAPE: char = '\u{10603}';
const ARROW_UP: char = '\u{10658}';

fn text(s: &str) -> OutputType {
    OutputType::Text(s.to_string())
}

fn piece(x: usize, y: usize, s: &str, link: bool) -> (usize, usize, String, bool) {
    (x, y, s.to_string(), link)
}

fn browser_with(doc: &str, width: usize, height: usize) -> KoxingaBrowser {
    let mut browser = KoxingaBrowser::new();
    browser.init([width, height]);
    let nodes = parse(doc);
    assert!(browser.can_show(&nodes));
    browser.show("http://site.org/dir/page".to_string(), nodes);
    browser
}

fn press(browser: &mut KoxingaBrowser, key: char) -> KeyOutcome {
    assert!(browser.can_handle(key));
    browser.handle_key(key)
}

#[test]
fn blanks_are_space_and_tab() {
    assert!(is_whitespace(' '));
    assert!(is_whitespace('\t'));
    assert!(!is_whitespace('\n'));
    assert!(!is_whitespace('a'));
    assert!(!is_whitespace('\u{a0}'));
}

#[test]
fn characters_and_strings_convert() {
    assert_eq!(chars_of("aé→"), vec!['a', 'é', '→']);
    assert_eq!(string_of(&vec!['a', 'é', '→']), "aé→");
    assert_eq!(chars_of(""), Vec::<char>::new());
}

#[test]
fn replacing_goes_from_left_to_right() {
    let s: Vec<char> = "aaaa".chars().collect();
    let pat: Vec<char> = "aa".chars().collect();
    let rep: Vec<char> = "b".chars().collect();
    assert_eq!(replace_all(&s, &pat, &rep), vec!['b', 'b']);
    let s: Vec<char> = "aaa".chars().collect();
    assert_eq!(replace_all(&s, &pat, &rep), vec!['b', 'a']);
    let s: Vec<char> = "xay".chars().collect();
    assert_eq!(replace_all(&s, &pat, &rep), vec!['x', 'a', 'y']);
    assert_eq!(replace_all(&Vec::new(), &pat, &rep), Vec::<char>::new());
}

#[test]
fn entities_in_text() {
    assert_eq!(handle_escaped("&nbsp;x&#x27;y"), " x'y");
    assert_eq!(handle_escaped("&nbsp;&nbsp;"), "  ");
    assert_eq!(handle_escaped("&amp;&nbsp"), "&amp;&nbsp");
    assert_eq!(handle_escaped("&&nbsp;#x27;"), "& #x27;");
    assert_eq!(handle_escaped(""), "");
}

#[test]
fn trimming_takes_white_space_off_both_ends() {
    let s: Vec<char> = " \t\n a b \u{a0}\r\n".chars().collect();
    assert_eq!(string_of(&trim(&s)), "a b");
    let s: Vec<char> = "   ".chars().collect();
    assert_eq!(string_of(&trim(&s)), "");
    let s: Vec<char> = "ab".chars().collect();
    assert_eq!(string_of(&trim(&s)), "ab");
}

#[test]
fn decimal_digits() {
    assert_eq!(string_of(&to_decimal(0)), "0");
    assert_eq!(string_of(&to_decimal(7)), "7");
    assert_eq!(string_of(&to_decimal(10)), "10");
    assert_eq!(string_of(&to_decimal(4096)), "4096");
    assert_eq!(string_of(&to_decimal(usize::MAX)), usize::MAX.to_string());
    assert_eq!(string_of(&label_of(12)), "12:");
}

#[test]
fn numbers_are_read_from_digits() {
    assert!(digit_key('0') && digit_key('9') && !digit_key('a') && !digit_key('/'));
    assert_eq!(read_number(&"0".chars().collect()), 0);
    assert_eq!(read_number(&"0042".chars().collect()), 42);
    assert_eq!(read_number(&"9999999999".chars().collect()), 9999999999);
    assert_eq!(try_read_number(&usize::MAX.to_string().chars().collect()), Some(usize::MAX));
    assert_eq!(try_read_number(&"99999999999999999999999999".chars().collect()), None);
    assert_eq!(try_read_number(&Vec::new()), Some(0));
}

#[test]
fn base_of_an_address() {
    assert_eq!(get_base_url("http://site.org/a/b"), "http://site.org");
    assert_eq!(get_base_url("https://site.org"), "https://site.org");
    assert_eq!(get_base_url("https://site.org/"), "https://site.org");
    assert_eq!(get_base_url("a/b/c/d"), "a/b/c");
    assert_eq!(get_base_url("///x"), "//");
    assert_eq!(get_base_url(""), "");
}

#[test]
fn links_are_resolved() {
    let url = "http://site.org/dir/page";
    assert_eq!(resolve_link(url, "\"/top\""), "http://site.org/top");
    assert_eq!(resolve_link(url, "\"http://other.org/x\""), "http://other.org/x");
    assert_eq!(resolve_link(url, "\"https://other.org/x\""), "https://other.org/x");
    assert_eq!(resolve_link(url, "\"next\""), "http://site.org/dir/page/next");
    assert_eq!(resolve_link("http://site.org/dir/", "\"next\""), "http://site.org/dir/next");
    assert_eq!(resolve_link(url, "x"), "http://site.org/dir/page/x");
    assert_eq!(resolve_link(url, "/"), "http://site.org/");
    assert_eq!(resolve_link(url, "''"), "http://site.org/dir/page/");
    assert!(check_unquote("\"abc\""));
    assert!(check_unquote("é"));
    assert!(!check_unquote("\"éé\""));
    assert!(check_unquote("\"é\""));
    assert_eq!(resolve_link(url, "\"é\""), "http://site.org/dir/page/é\"");
}

#[test]
fn text_is_shown_without_the_space_around_it() {
    assert_eq!(string_of(&display_text("  a  b \n")), " a  b");
    assert_eq!(string_of(&display_text("a b ")), "a b ");
    assert_eq!(string_of(&display_text(" ")), "  ");
    assert_eq!(string_of(&display_text("\n x")), "x");
    assert_eq!(string_of(&display_text("")), "");
}

#[test]
fn body_of_the_document() {
    let nodes = parse("<html><head>t</head><body>a</body><body><p>b</p></body></html><html><body>c</body></html>");
    assert_eq!(body_output(&nodes), vec![text("b"), OutputType::Newline]);
    assert_eq!(body_output(&parse("<body>a</body>")), vec![]);
    assert_eq!(body_output(&parse("<html><p>a</p></html>")), vec![]);
    assert_eq!(body_output(&parse("")), vec![]);
}

#[test]
fn pieces_wrap_at_the_width() {
    let events = vec![text("abcdef"), OutputType::Newline, text("g")];
    let (page, links, y) = lay_out(&events, 50, false);
    assert_eq!(
        page,
        vec![piece(2, 2, "abcd", false), piece(2, 20, "ef", false), piece(2, 38, "g", false)]
    );
    assert!(links.is_empty());
    assert_eq!(y, 38);
    let (page, _, y) = lay_out(&vec![text("ab")], 0, false);
    assert_eq!(page, vec![piece(2, 2, "", false), piece(2, 20, "a", false), piece(2, 38, "b", false)]);
    assert_eq!(y, 38);
    assert_eq!(lay_out(&Vec::new(), 100, true), (vec![], vec![], 2));
}

#[test]
fn links_are_numbered_on_demand() {
    let events = vec![
        OutputType::StartLink("\"a\"".to_string()),
        text("x"),
        OutputType::EndLink,
        text("y"),
        OutputType::StartLink("b".to_string()),
        OutputType::Newline,
    ];
    let (page, links, y) = lay_out(&events, 500, true);
    assert_eq!(
        page,
        vec![
            piece(2, 2, "0:", true),
            piece(26, 2, "x", true),
            piece(38, 2, "y", false),
            piece(50, 2, "1:", true)
        ]
    );
    assert_eq!(links, vec!["\"a\"".to_string(), "b".to_string()]);
    assert_eq!(y, 20);
    let (page, links, _) = lay_out(&events, 500, false);
    assert_eq!(page, vec![piece(2, 2, "x", true), piece(14, 2, "y", false)]);
    assert!(links.is_empty());
    assert!(try_lay_out(&events, 500, true).is_some());
}

#[test]
fn new_browser_is_empty() {
    let browser = KoxingaBrowser::new();
    assert_eq!(browser.dimensions, [0, 0]);
    assert_eq!(browser.mode, Mode::Normal);
    assert_eq!(browser.mode, Mode::default());
    assert_eq!(browser.max_lines, 0);
    assert_eq!(browser.top_line_no, 0);
    assert!(browser.url.is_none());
    assert!(browser.input.is_empty() && browser.links.is_empty());
    assert!(browser.top_level_nodes.is_empty() && browser.page.is_empty());
    assert_eq!(browser.bottom_text(), "NORMAL: ");
    assert!(!browser.can_handle('k'));
}

#[test]
fn page_is_laid_out_when_shown() {
    let mut browser = browser_with("<html><body><p>ab</p><a href=\"/x\">cd</a></body></html>", 500, 410);
    assert_eq!(browser.url.as_deref(), Some("http://site.org/dir/page"));
    assert_eq!(browser.page, vec![piece(2, 2, "ab", false), piece(2, 20, "cd", true)]);
    assert_eq!(browser.max_lines, 1);
    assert!(browser.links.is_empty());
    assert!(browser.can_calc_page());
    browser.calc_page();
    assert_eq!(browser.page.len(), 2);
    assert!(browser.can_change_dimensions([20, 410]));
    browser.change_dimensions([20, 410]);
    assert_eq!(browser.dimensions, [20, 410]);
    assert_eq!(
        browser.page,
        vec![
            piece(2, 2, "a", false),
            piece(2, 20, "b", false),
            piece(2, 38, "c", true),
            piece(2, 56, "d", true)
        ]
    );
    assert_eq!(browser.max_lines, 3);
}

#[test]
fn normal_keys_move_the_page() {
    let mut doc = String::from("<html><body>");
    for i in 0..40 {
        doc += &format!("<p>{}</p>", i);
    }
    doc += "</body></html>";
    let mut browser = browser_with(&doc, 500, 410);
    assert_eq!(browser.max_lines, 40);
    assert_eq!(press(&mut browser, 'k'), KeyOutcome::JustRedraw);
    assert_eq!(browser.top_line_no, 0);
    assert_eq!(press(&mut browser, 'j'), KeyOutcome::JustRedraw);
    assert_eq!(press(&mut browser, 'j'), KeyOutcome::JustRedraw);
    assert_eq!(browser.top_line_no, 2);
    let shown = browser.visible_pieces();
    assert_eq!(shown.len(), 21);
    assert_eq!(shown[0], piece(2, 2, "2", false));
    assert_eq!(shown[20], piece(2, 362, "22", false));
    assert_eq!(press(&mut browser, 'k'), KeyOutcome::JustRedraw);
    assert_eq!(browser.top_line_no, 1);
    assert_eq!(press(&mut browser, 'G'), KeyOutcome::JustRedraw);
    assert_eq!(browser.top_line_no, 19);
    assert_eq!(press(&mut browser, 'j'), KeyOutcome::DoNothing);
    assert_eq!(browser.top_line_no, 19);
    assert_eq!(press(&mut browser, '0'), KeyOutcome::JustRedraw);
    assert_eq!(browser.top_line_no, 0);
    assert_eq!(press(&mut browser, 'x'), KeyOutcome::DoNothing);
    assert_eq!(press(&mut browser, ENTER), KeyOutcome::DoNothing);
    assert_eq!(browser.bottom_text(), "NORMAL: u (url), s (search), l (link), j (down), k (up)");
}

#[test]
fn short_page_cannot_be_moved_down() {
    let browser = browser_with("<html><body><p>a</p></body></html>", 500, 410);
    assert!(!browser.can_handle('j'));
    assert!(!browser.can_handle('G'));
    assert!(browser.can_handle('k'));
    let low = browser_with("<html><body><p>a</p></body></html>", 500, 21);
    assert!(!low.can_handle('k'));
}

#[test]
fn address_is_written_and_sent() {
    let mut browser = KoxingaBrowser::new();
    browser.init([499, 410]);
    assert_eq!(browser.bottom_text(), "NORMAL: ");
    assert_eq!(press(&mut browser, 'l'), KeyOutcome::DoNothing);
    assert_eq!(press(&mut browser, 'u'), KeyOutcome::JustRedraw);
    assert_eq!(browser.mode, Mode::Url);
    assert_eq!(press(&mut browser, ENTER), KeyOutcome::DoNothing);
    for c in "a.b/".chars() {
        assert_eq!(press(&mut browser, c), KeyOutcome::JustRedraw);
    }
    assert_eq!(press(&mut browser, ARROW_UP), KeyOutcome::DoNothing);
    assert_eq!(press(&mut browser, BACKSPACE), KeyOutcome::JustRedraw);
    assert_eq!(browser.input, "a.b");
    assert_eq!(browser.bottom_text(), "URL: a.b");
    assert_eq!(press(&mut browser, ENTER), KeyOutcome::Fetch("a.b".to_string()));
    assert_eq!(browser.mode, Mode::Url);
    browser.show("a.b".to_string(), parse("<html><body>x</body></html>"));
    assert_eq!(browser.mode, Mode::Normal);
    assert_eq!(browser.input, "");
    assert_eq!(press(&mut browser, 'u'), KeyOutcome::JustRedraw);
    assert_eq!(browser.input, "a.b");
    assert_eq!(press(&mut browser, ESCAPE), KeyOutcome::JustRedraw);
    assert_eq!(browser.mode, Mode::Normal);
    assert_eq!(browser.input, "");
    assert_eq!(press(&mut browser, BACKSPACE), KeyOutcome::DoNothing);
}

#[test]
fn search_goes_to_the_search_site() {
    let mut browser = KoxingaBrowser::new();
    browser.init([500, 410]);
    assert_eq!(press(&mut browser, 's'), KeyOutcome::JustRedraw);
    assert_eq!(browser.mode, Mode::Search);
    assert_eq!(browser.bottom_text(), "SEARCH: ");
    for c in "a b".chars() {
        press(&mut browser, c);
    }
    assert_eq!(
        press(&mut browser, ENTER),
        KeyOutcome::Fetch("http://frogfind.de/?q=a b".to_string())
    );
}

#[test]
fn links_are_followed_by_number() {
    let mut browser = browser_with(
        "<html><body><a href=\"/top\">a</a><a href=\"http://o.org\">b</a><a href=\"rel\">c</a></body></html>",
        500,
        410,
    );
    assert_eq!(press(&mut browser, 'l'), KeyOutcome::JustRedraw);
    assert_eq!(browser.mode, Mode::Link);
    assert_eq!(browser.links, vec!["\"/top\"", "\"http://o.org\"", "\"rel\""]);
    assert_eq!(browser.page[0], piece(2, 2, "0:", true));
    assert_eq!(browser.page[1], piece(26, 2, "a", true));
    assert_eq!(browser.bottom_text(), "LINK: ");
    assert_eq!(press(&mut browser, 'x'), KeyOutcome::DoNothing);
    assert_eq!(press(&mut browser, '7'), KeyOutcome::JustRedraw);
    assert_eq!(press(&mut browser, ENTER), KeyOutcome::DoNothing);
    assert_eq!(press(&mut browser, BACKSPACE), KeyOutcome::JustRedraw);
    assert_eq!(press(&mut browser, '0'), KeyOutcome::JustRedraw);
    assert_eq!(press(&mut browser, '2'), KeyOutcome::JustRedraw);
    assert_eq!(browser.input, "02");
    assert_eq!(
        press(&mut browser, ENTER),
        KeyOutcome::Fetch("http://site.org/dir/page/rel".to_string())
    );
    press(&mut browser, BACKSPACE);
    assert_eq!(press(&mut browser, ENTER), KeyOutcome::Fetch("http://site.org/top".to_string()));
    press(&mut browser, BACKSPACE);
    press(&mut browser, '1');
    assert_eq!(press(&mut browser, ENTER), KeyOutcome::Fetch("http://o.org".to_string()));
    for _ in 0..12 {
        press(&mut browser, '9');
    }
    assert_eq!(browser.input, "1999999999");
    assert_eq!(press(&mut browser, ESCAPE), KeyOutcome::JustRedraw);
    assert_eq!(browser.mode, Mode::Normal);
    assert_eq!(browser.input, "");
    assert!(browser.links.is_empty());
    assert_eq!(browser.page[0], piece(2, 2, "a", true));
}

#[test]
fn mode_names() {
    assert_eq!(Mode::Normal.label(), "NORMAL");
    assert_eq!(Mode::Url.label(), "URL");
    assert_eq!(Mode::Link.label(), "LINK");
    assert_eq!(Mode::Search.label(), "SEARCH");
}
