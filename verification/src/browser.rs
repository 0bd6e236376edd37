//! The browser's state: the page that is shown, the mode that the keys are
//! read in, and what a key, a new size or a loaded document changes.

use crate::page::{
    laid_out, lay_out, try_lay_out, lemma_place_events_below, page_view, pieces_below_margin, strings_view,
    Layout, Piece, LINE_HEIGHT, MARGIN,
};
use crate::keys::{
    all_digits, digit_key, is_backspace, is_backspace_key, is_digit, is_enter, is_enter_key,
    is_escape, is_escape_key, is_regular, is_regular_key, number_of, read_number,
    try_read_number,
};
use crate::text::{chars_of, same_text, substring};
use crate::url::{byte_length, can_unquote, check_unquote, resolve_link, resolved, unquoted};

use crate::xml::{events_view, flatten, forest_view, lemma_node_view, Node, NodeView, OutputEvent, OutputType};
use vstd::prelude::*;

verus! {

/// The mode that keys are read in.
#[derive(Debug, Clone, Copy, PartialEq, Eq, Structural)]
pub enum Mode {
    /// Keys move the page or choose another mode.
    Normal,
    /// Keys write an address.
    Url,
    /// Keys write the number of a link.
    Link,
    /// Keys write what to search for.
    Search,
}

impl Default for Mode {
    fn default() -> (mode: Mode)
        ensures
            mode == Mode::Normal,
    {
        Mode::Normal
    }
}

impl Mode {
    /// The name of the mode as the bottom line shows it.
    pub fn label(&self) -> (label: String)
        ensures
            label@ == mode_label(*self),
    {
        match self {
            Mode::Normal => "NORMAL".to_owned(),
            Mode::Url => "URL".to_owned(),
            Mode::Link => "LINK".to_owned(),
            Mode::Search => "SEARCH".to_owned(),
        }
    }
}

/// The name of a mode as the bottom line shows it.
pub open spec fn mode_label(mode: Mode) -> Seq<char> {
    match mode {
        Mode::Normal => "NORMAL"@,
        Mode::Url => "URL"@,
        Mode::Link => "LINK"@,
        Mode::Search => "SEARCH"@,
    }
}

/// The position of the first of the first `count` nodes of `nodes` that is
/// named `name`, if there is one.
pub open spec fn first_named(nodes: Seq<NodeView>, name: Seq<char>, count: nat) -> Option<int>
    decreases count,
{
    if count == 0 || count > nodes.len() {
        None
    } else {
        match first_named(nodes, name, (count - 1) as nat) {
            Some(i) => Some(i),
            None => if nodes[count - 1].tag_name == name {
                Some(count - 1)
            } else {
                None
            },
        }
    }
}

/// A node that is the first of its name among some nodes is so among more.
pub proof fn lemma_first_named_stays(
    nodes: Seq<NodeView>,
    name: Seq<char>,
    count: nat,
    more: nat,
)
    requires
        1 <= count <= more <= nodes.len(),
        first_named(nodes, name, count) is Some,
    ensures
        first_named(nodes, name, more) == first_named(nodes, name, count),
    decreases more,
{
    if count < more {
        lemma_first_named_stays(nodes, name, count, (more - 1) as nat);
    }
}

/// The position of the last of the first `count` nodes of `nodes` that is
/// named `name`, if there is one.
pub open spec fn last_named(nodes: Seq<NodeView>, name: Seq<char>, count: nat) -> Option<int>
    decreases count,
{
    if count == 0 || count > nodes.len() {
        None
    } else if nodes[count - 1].tag_name == name {
        Some(count - 1)
    } else {
        last_named(nodes, name, (count - 1) as nat)
    }
}

/// The events of the body of a document: of the last node named `body` among
/// the children of the first node named `html`. No events where either is
/// missing.
pub open spec fn body_events(forest: Seq<NodeView>) -> Seq<OutputEvent> {
    match first_named(forest, "html"@, forest.len()) {
        Some(h) => match last_named(forest[h].children, "body"@, forest[h].children.len()) {
            Some(b) => flatten(forest[h].children[b]),
            None => Seq::empty(),
        },
        None => Seq::empty(),
    }
}

/// The events of the body of the document `nodes`.
pub fn body_output(nodes: &Vec<Box<Node>>) -> (events: Vec<OutputType>)
    ensures
        events_view(events@) == body_events(forest_view(nodes@)),
{
    let ghost forest = forest_view(nodes@);
    let mut h: usize = 0;
    while h < nodes.len()
        invariant
            h <= nodes.len(),
            forest == forest_view(nodes@),
            first_named(forest, "html"@, h as nat) is None,
        decreases nodes.len() - h,
    {
        proof {
            lemma_node_view(*nodes@[h as int]);
        }
        if same_text(&nodes[h].tag_name, "html") {
            let html = &nodes[h];
            let ghost children = forest[h as int].children;
            proof {
                assert(first_named(forest, "html"@, (h + 1) as nat) == Some(h as int));
                lemma_first_named_stays(forest, "html"@, (h + 1) as nat, forest.len());
            }
            let mut found: Option<usize> = None;
            let mut b: usize = 0;
            while b < html.children.len()
                invariant
                    b <= html.children.len(),
                    children == forest_view(html.children@),
                    match found {
                        Some(at) => at < b && last_named(children, "body"@, b as nat) == Some(
                            at as int,
                        ),
                        None => last_named(children, "body"@, b as nat) is None,
                    },
                decreases html.children.len() - b,
            {
                proof {
                    lemma_node_view(*html.children@[b as int]);
                }
                if same_text(&html.children[b].tag_name, "body") {
                    found = Some(b);
                }
                b = b + 1;
            }
            return match found {
                Some(at) => html.children[at].to_output(),
                None => {
                    let events: Vec<OutputType> = Vec::new();
                    assert(events_view(events@) =~= Seq::<OutputEvent>::empty());
                    events
                },
            };
        }
        h = h + 1;
    }
    let events: Vec<OutputType> = Vec::new();
    assert(events_view(events@) =~= Seq::<OutputEvent>::empty());
    events
}

/// The browser between two messages.
pub struct KoxingaBrowser {
    /// The width and the height of the window.
    pub dimensions: [usize; 2],
    /// The mode that keys are read in.
    pub mode: Mode,
    /// The number of lines that the page has.
    pub max_lines: usize,
    /// The line of the page that stands at the top of the window.
    pub top_line_no: usize,
    /// The address of the document that is shown, if one is.
    pub url: Option<String>,
    /// What was written in the mode that asks for text.
    pub input: String,
    /// The addresses of the numbered links of the page.
    pub links: Vec<String>,
    /// The document that is shown.
    pub top_level_nodes: Vec<Box<Node>>,
    /// The pieces of the page.
    pub page: Vec<(usize, usize, String, bool)>,
}

/// The mathematical value of a `KoxingaBrowser`.
#[verifier::ext_equal]
pub struct BrowserView {
    pub width: int,
    pub height: int,
    pub mode: Mode,
    pub max_lines: int,
    pub top_line_no: int,
    pub url: Option<Seq<char>>,
    pub input: Seq<char>,
    pub links: Seq<Seq<char>>,
    pub forest: Seq<NodeView>,
    pub page: Seq<Piece>,
}

/// The value of an address that may be there.
pub open spec fn optional_text(text: Option<String>) -> Option<Seq<char>> {
    match text {
        Some(text) => Some(text@),
        None => None,
    }
}

impl View for KoxingaBrowser {
    type V = BrowserView;

    open spec fn view(&self) -> BrowserView {
        BrowserView {
            width: self.dimensions[0] as int,
            height: self.dimensions[1] as int,
            mode: self.mode,
            max_lines: self.max_lines as int,
            top_line_no: self.top_line_no as int,
            url: optional_text(self.url),
            input: self.input@,
            links: strings_view(self.links@),
            forest: forest_view(self.top_level_nodes@),
            page: page_view(self.page@),
        }
    }
}

/// What holds of the browser between two messages. Every piece of the page
/// stands at or below the margin. In the normal mode nothing is written. In
/// the mode that asks for a link a document is shown, and what is written is
/// made of digits.
pub open spec fn well_formed(b: BrowserView) -> bool {
    &&& pieces_below_margin(b.page)
    &&& b.mode == Mode::Normal ==> b.input.len() == 0
    &&& b.mode == Mode::Link ==> b.url is Some && all_digits(b.input)
}

/// The browser before the first message.
pub open spec fn initial_browser() -> BrowserView {
    BrowserView {
        width: 0,
        height: 0,
        mode: Mode::Normal,
        max_lines: 0,
        top_line_no: 0,
        url: None,
        input: Seq::empty(),
        links: Seq::empty(),
        forest: Seq::empty(),
        page: Seq::empty(),
    }
}

/// The layout of the body of the document on a page as wide as the window.
/// The links are numbered in the mode that asks for a link.
pub open spec fn page_layout(b: BrowserView) -> Layout {
    laid_out(body_events(b.forest), b.width, b.mode == Mode::Link)
}

/// Whether the page can be laid out: the place at which it ends can be held.
pub open spec fn page_fits(b: BrowserView) -> bool {
    page_layout(b).y <= usize::MAX
}

/// The browser with its page laid out anew: the pieces, the addresses of the
/// numbered links, and the number of lines.
pub open spec fn with_page(b: BrowserView) -> BrowserView {
    BrowserView {
        page: page_layout(b).page,
        links: page_layout(b).links,
        max_lines: (page_layout(b).y - MARGIN) / (LINE_HEIGHT as int),
        ..b
    }
}

/// A page that was laid out anew leaves the browser well formed.
pub proof fn lemma_with_page(b: BrowserView)
    requires
        well_formed(b),
    ensures
        well_formed(with_page(b)),
        page_layout(b).y >= MARGIN,
{
    lemma_place_events_below(
        body_events(b.forest),
        body_events(b.forest).len(),
        b.width,
        b.mode == Mode::Link,
    );
}

/// The browser with a window of another size. The page is laid out anew where
/// `relaid` is set.
pub open spec fn resized(b: BrowserView, width: int, height: int, relaid: bool) -> BrowserView {
    let sized = BrowserView { width, height, ..b };
    if relaid {
        with_page(sized)
    } else {
        sized
    }
}

/// The browser that shows the document parsed to `forest` from the address
/// `url`: from its first line, laid out in the mode that asked for it, and
/// then in the normal mode, with nothing written.
pub open spec fn loaded(b: BrowserView, url: Seq<char>, forest: Seq<NodeView>) -> BrowserView {
    let shown = with_page(
        BrowserView { url: Some(url), top_line_no: 0, forest, input: Seq::empty(), ..b },
    );
    BrowserView { mode: Mode::Normal, ..shown }
}

/// What the browser answers to a key.
#[derive(Debug, PartialEq, Eq)]
pub enum KeyOutcome {
    /// The window is to be drawn anew.
    JustRedraw,
    /// Nothing is to be done.
    DoNothing,
    /// The document at this address is to be fetched, and then shown.
    Fetch(String),
}

/// The mathematical value of a `KeyOutcome`.
pub enum Outcome {
    JustRedraw,
    DoNothing,
    Fetch(Seq<char>),
}

impl View for KeyOutcome {
    type V = Outcome;

    open spec fn view(&self) -> Outcome {
        match self {
            KeyOutcome::JustRedraw => Outcome::JustRedraw,
            KeyOutcome::DoNothing => Outcome::DoNothing,
            KeyOutcome::Fetch(url) => Outcome::Fetch(url@),
        }
    }
}

/// The number of lines of the page that the window shows: its height
/// without four, in lines, less the bottom line.
pub open spec fn screen_lines(b: BrowserView) -> int {
    (b.height - 4) / (LINE_HEIGHT as int) - 1
}

/// What a key does in the normal mode. `u` asks for an address, starting
/// from the address of the document; `l` asks for a link, where a document is
/// shown, and numbers the links; `s` asks for a search. `k` moves up by a
/// line and `j` down, `0` to the top and `G` to the end.
pub open spec fn normal_key(b: BrowserView, key: char) -> (BrowserView, Outcome) {
    if key == 'u' {
        (
            BrowserView {
                mode: Mode::Url,
                input: match b.url {
                    Some(url) => url,
                    None => Seq::empty(),
                },
                ..b
            },
            Outcome::JustRedraw,
        )
    } else if key == 'l' && b.url is Some {
        (with_page(BrowserView { mode: Mode::Link, ..b }), Outcome::JustRedraw)
    } else if key == 's' {
        (BrowserView { mode: Mode::Search, ..b }, Outcome::JustRedraw)
    } else if key == 'k' {
        (
            BrowserView {
                top_line_no: if b.top_line_no > 0 {
                    b.top_line_no - 1
                } else {
                    b.top_line_no
                },
                ..b
            },
            Outcome::JustRedraw,
        )
    } else if key == 'j' {
        if b.top_line_no < b.max_lines - screen_lines(b) {
            (BrowserView { top_line_no: b.top_line_no + 1, ..b }, Outcome::JustRedraw)
        } else {
            (b, Outcome::DoNothing)
        }
    } else if key == '0' {
        (BrowserView { top_line_no: 0, ..b }, Outcome::JustRedraw)
    } else if key == 'G' {
        (BrowserView { top_line_no: b.max_lines - screen_lines(b), ..b }, Outcome::JustRedraw)
    } else {
        (b, Outcome::DoNothing)
    }
}

/// The address that the enter key asks for. A search goes to the search
/// site. A link goes where the link of the number that was written leads;
/// nowhere where the page has no link of that number. An address is taken as
/// it was written.
pub open spec fn target_address(b: BrowserView) -> Option<Seq<char>> {
    match b.mode {
        Mode::Search => Some("http://frogfind.de/?q="@ + b.input),
        Mode::Link => if number_of(b.input) < b.links.len() {
            Some(resolved(b.url->0, unquoted(b.links[number_of(b.input) as int])))
        } else {
            None
        },
        _ => Some(b.input),
    }
}

/// What a key does in a mode that asks for text. Enter sends what was
/// written, unless nothing was. Escape gives up and returns to the normal
/// mode; the links lose their numbers. Backspace takes the last character
/// off. Any other key is written: digits only, and at most ten bytes, where
/// a link is asked for.
pub open spec fn text_key(b: BrowserView, key: char) -> (BrowserView, Outcome) {
    if is_enter_key(key) && b.input.len() > 0 {
        match target_address(b) {
            Some(address) => (b, Outcome::Fetch(address)),
            None => (b, Outcome::DoNothing),
        }
    } else if is_escape_key(key) {
        let normal = BrowserView { mode: Mode::Normal, ..b };
        let paged = if b.mode == Mode::Link {
            with_page(normal)
        } else {
            normal
        };
        (BrowserView { input: Seq::empty(), ..paged }, Outcome::JustRedraw)
    } else if is_backspace_key(key) && b.input.len() > 0 {
        (BrowserView { input: b.input.drop_last(), ..b }, Outcome::JustRedraw)
    } else if (b.mode == Mode::Link && is_digit(key) && byte_length(b.input) < 10) || (b.mode
        != Mode::Link && is_regular_key(key)) {
        (BrowserView { input: b.input.push(key), ..b }, Outcome::JustRedraw)
    } else {
        (b, Outcome::DoNothing)
    }
}

/// What a key does: the browser behind it, and the answer.
pub open spec fn after_key(b: BrowserView, key: char) -> (BrowserView, Outcome) {
    if b.mode == Mode::Normal {
        normal_key(b, key)
    } else {
        text_key(b, key)
    }
}

/// Whether the browser can take the key. In the normal mode the window must
/// be high enough for a line of the page and the bottom line; `j` and `G`
/// need a page that is at least as long as the window; `l` needs a page that
/// can be laid out with numbered links. Where enter sends the number of a
/// link, the number must be one that can be held, and the link of that
/// number one whose quotes can be taken off. Where escape gives up a link,
/// the page must be one that can be laid out.
pub open spec fn key_allowed(b: BrowserView, key: char) -> bool {
    if b.mode == Mode::Normal {
        &&& b.height >= 4 + LINE_HEIGHT
        &&& key == 'j' || key == 'G' ==> b.max_lines >= screen_lines(b)
        &&& key == 'l' && b.url is Some ==> page_fits(BrowserView { mode: Mode::Link, ..b })
    } else if is_enter_key(key) && b.input.len() > 0 {
        b.mode == Mode::Link ==> {
            &&& number_of(b.input) <= usize::MAX
            &&& number_of(b.input) < b.links.len() ==> can_unquote(
                b.links[number_of(b.input) as int],
            )
        }
    } else {
        is_escape_key(key) && b.mode == Mode::Link ==> page_fits(
            BrowserView { mode: Mode::Normal, ..b },
        )
    }
}

impl KoxingaBrowser {
    /// The browser before the first message: no window, no document, the
    /// normal mode.
    pub fn new() -> (browser: KoxingaBrowser)
        ensures
            browser@ == initial_browser(),
            well_formed(browser@),
    {
        let browser = KoxingaBrowser {
            dimensions: [0, 0],
            mode: Mode::Normal,
            max_lines: 0,
            top_line_no: 0,
            url: None,
            input: String::new(),
            links: Vec::new(),
            top_level_nodes: Vec::new(),
            page: Vec::new(),
        };
        assert(browser@ =~= initial_browser());
        browser
    }

    /// Lays the page out anew: the body of the document, in the width of the
    /// window, the links numbered in the mode that asks for a link.
    pub fn calc_page(&mut self)
        requires
            page_fits(old(self)@),
        ensures
            final(self)@ == with_page(old(self)@),
            well_formed(old(self)@) ==> well_formed(final(self)@),
    {
        proof {
            if well_formed(self@) {
                lemma_with_page(self@);
            }
        }
        let outputs = body_output(&self.top_level_nodes);
        let numbered = self.mode == Mode::Link;
        proof {
            lemma_place_events_below(
                events_view(outputs@),
                events_view(outputs@).len(),
                self.dimensions[0] as int,
                numbered,
            );
        }
        let (page, links, y) = lay_out(&outputs, self.dimensions[0], numbered);
        self.page = page;
        self.links = links;
        self.max_lines = (y - MARGIN) / LINE_HEIGHT;
        assert(self@ =~= with_page(old(self)@));
    }

    /// The window opens with the given width and height.
    pub fn init(&mut self, dimensions: [usize; 2])
        ensures
            final(self)@ == resized(old(self)@, dimensions[0] as int, dimensions[1] as int, false),
            well_formed(old(self)@) ==> well_formed(final(self)@),
    {
        self.dimensions = dimensions;
        assert(self@ =~= resized(old(self)@, dimensions[0] as int, dimensions[1] as int, false));
    }

    /// The window takes another width and height, and the page is laid out in
    /// them.
    pub fn change_dimensions(&mut self, dimensions: [usize; 2])
        requires
            page_fits(resized(old(self)@, dimensions[0] as int, dimensions[1] as int, false)),
        ensures
            final(self)@ == resized(old(self)@, dimensions[0] as int, dimensions[1] as int, true),
            well_formed(old(self)@) ==> well_formed(final(self)@),
    {
        self.dimensions = dimensions;
        assert(self@ =~= resized(old(self)@, dimensions[0] as int, dimensions[1] as int, false));
        self.calc_page();
    }

    /// The document `nodes` was fetched from `url` and is shown from now on.
    pub fn show(&mut self, url: String, nodes: Vec<Box<Node>>)
        requires
            page_fits(
                BrowserView { forest: forest_view(nodes@), ..old(self)@ },
            ),
        ensures
            final(self)@ == loaded(old(self)@, url@, forest_view(nodes@)),
            well_formed(final(self)@),
    {
        proof {
            lemma_place_events_below(
                body_events(forest_view(nodes@)),
                body_events(forest_view(nodes@)).len(),
                self@.width,
                self@.mode == Mode::Link,
            );
        }
        self.url = Some(url);
        self.top_line_no = 0;
        self.top_level_nodes = nodes;
        self.input = String::new();
        assert(self@ =~= BrowserView {
            url: Some(url@),
            top_line_no: 0,
            forest: forest_view(nodes@),
            input: Seq::empty(),
            ..old(self)@
        });
        self.calc_page();
        self.mode = Mode::Normal;
        assert(self@ =~= loaded(old(self)@, url@, forest_view(nodes@)));
    }
}

impl KoxingaBrowser {
    /// The number of lines of the page that the window shows.
    fn max_lines_screen(&self) -> (lines: usize)
        requires
            self@.height >= 4 + LINE_HEIGHT,
        ensures
            lines == screen_lines(self@),
    {
        (self.dimensions[1] - 4) / LINE_HEIGHT - 1
    }

    /// A key in the normal mode.
    fn handle_normal_key(&mut self, key: char) -> (outcome: KeyOutcome)
        requires
            well_formed(old(self)@),
            old(self)@.mode == Mode::Normal,
            key_allowed(old(self)@, key),
        ensures
            (final(self)@, outcome@) == normal_key(old(self)@, key),
    {
        let max_lines_screen = self.max_lines_screen();
        if key == 'u' {
            self.mode = Mode::Url;
            self.input = match &self.url {
                Some(url) => url.clone(),
                None => String::new(),
            };
            assert(self@ =~= normal_key(old(self)@, key).0);
            KeyOutcome::JustRedraw
        } else if key == 'l' && self.url.is_some() {
            self.mode = Mode::Link;
            assert(self@ =~= BrowserView { mode: Mode::Link, ..old(self)@ });
            self.calc_page();
            KeyOutcome::JustRedraw
        } else if key == 's' {
            self.mode = Mode::Search;
            assert(self@ =~= normal_key(old(self)@, key).0);
            KeyOutcome::JustRedraw
        } else if key == 'k' {
            if self.top_line_no > 0 {
                self.top_line_no = self.top_line_no - 1;
            }
            assert(self@ =~= normal_key(old(self)@, key).0);
            KeyOutcome::JustRedraw
        } else if key == 'j' {
            if self.top_line_no < self.max_lines - max_lines_screen {
                self.top_line_no = self.top_line_no + 1;
                assert(self@ =~= normal_key(old(self)@, key).0);
                KeyOutcome::JustRedraw
            } else {
                KeyOutcome::DoNothing
            }
        } else if key == '0' {
            self.top_line_no = 0;
            assert(self@ =~= normal_key(old(self)@, key).0);
            KeyOutcome::JustRedraw
        } else if key == 'G' {
            self.top_line_no = self.max_lines - max_lines_screen;
            assert(self@ =~= normal_key(old(self)@, key).0);
            KeyOutcome::JustRedraw
        } else {
            KeyOutcome::DoNothing
        }
    }

    /// The address that the enter key asks for.
    fn target(&self) -> (address: Option<String>)
        requires
            well_formed(self@),
            self@.mode != Mode::Normal,
            self@.mode == Mode::Link ==> {
                &&& number_of(self@.input) <= usize::MAX
                &&& number_of(self@.input) < self@.links.len() ==> can_unquote(
                    self@.links[number_of(self@.input) as int],
                )
            },
        ensures
            optional_text(address) == target_address(self@),
    {
        match self.mode {
            Mode::Search => Some(
                String::from_str("http://frogfind.de/?q=").concat(self.input.as_str()),
            ),
            Mode::Link => {
                let digits = chars_of(self.input.as_str());
                let link_index = read_number(&digits);
                if link_index < self.links.len() {
                    match &self.url {
                        Some(url) => Some(
                            resolve_link(url.as_str(), self.links[link_index].as_str()),
                        ),
                        None => None,
                    }
                } else {
                    None
                }
            },
            _ => Some(self.input.clone()),
        }
    }

    /// A key in a mode that asks for text.
    fn handle_text_key(&mut self, key: char) -> (outcome: KeyOutcome)
        requires
            well_formed(old(self)@),
            old(self)@.mode != Mode::Normal,
            key_allowed(old(self)@, key),
        ensures
            (final(self)@, outcome@) == text_key(old(self)@, key),
    {
        if is_enter(key) && !self.input.as_str().is_empty() {
            match self.target() {
                Some(address) => KeyOutcome::Fetch(address),
                None => KeyOutcome::DoNothing,
            }
        } else if is_escape(key) {
            let is_link_mode = self.mode == Mode::Link;
            self.mode = Mode::Normal;
            assert(self@ =~= BrowserView { mode: Mode::Normal, ..old(self)@ });
            if is_link_mode {
                self.calc_page();
            }
            self.input = String::new();
            assert(self@ =~= text_key(old(self)@, key).0);
            KeyOutcome::JustRedraw
        } else if is_backspace(key) && !self.input.as_str().is_empty() {
            let count = self.input.as_str().unicode_len();
            let shorter = substring(&self.input, 0, count - 1).to_owned();
            self.input = shorter;
            assert(self@ =~= text_key(old(self)@, key).0);
            KeyOutcome::JustRedraw
        } else if (self.mode == Mode::Link && digit_key(key) && self.input.as_str().len() < 10)
            || (self.mode != Mode::Link && is_regular(key)) {
            self.input.push(key);
            assert(self@ =~= text_key(old(self)@, key).0);
            KeyOutcome::JustRedraw
        } else {
            KeyOutcome::DoNothing
        }
    }

    /// Takes a key. Where the answer is `Fetch`, the document at that address
    /// is to be fetched and handed to `show`; the browser stays as it is
    /// until then.
    pub fn handle_key(&mut self, key: char) -> (outcome: KeyOutcome)
        requires
            well_formed(old(self)@),
            key_allowed(old(self)@, key),
        ensures
            (final(self)@, outcome@) == after_key(old(self)@, key),
            well_formed(final(self)@),
    {
        proof {
            lemma_key_well_formed(self@, key);
        }
        if self.mode == Mode::Normal {
            self.handle_normal_key(key)
        } else {
            self.handle_text_key(key)
        }
    }
}

/// A key leaves the browser well formed.
pub proof fn lemma_key_well_formed(b: BrowserView, key: char)
    requires
        well_formed(b),
    ensures
        well_formed(after_key(b, key).0),
{
    if b.mode == Mode::Normal {
        if key == 'l' && b.url is Some {
            assert(b.input =~= Seq::<char>::empty());
            lemma_with_page(BrowserView { mode: Mode::Link, ..b });
        }
    } else {
        if is_enter_key(key) && b.input.len() > 0 {
        } else if is_escape_key(key) {
            let normal = BrowserView { mode: Mode::Normal, input: Seq::<char>::empty(), ..b };
            assert(well_formed(normal));
            if b.mode == Mode::Link {
                lemma_with_page(normal);
            }
        }
    }
}

/// Whether a piece stands on one of the `screen` lines from line `top` on.
pub open spec fn is_visible(piece: Piece, top: int, screen: int) -> bool {
    let line_no = (piece.1 - MARGIN) / (LINE_HEIGHT as int);
    top <= line_no < top + screen
}

/// A piece as the window shows it, the page moved up by `top` lines.
pub open spec fn moved_up(piece: Piece, top: int) -> Piece {
    (piece.0, piece.1 - LINE_HEIGHT * top, piece.2, piece.3)
}

/// Those of the first `count` pieces of `page` that the window shows, in
/// their order and as the window shows them.
pub open spec fn visible_first(page: Seq<Piece>, count: nat, top: int, screen: int) -> Seq<Piece>
    decreases count,
{
    if count == 0 || count > page.len() {
        Seq::empty()
    } else {
        let before = visible_first(page, (count - 1) as nat, top, screen);
        if is_visible(page[count - 1], top, screen) {
            before.push(moved_up(page[count - 1], top))
        } else {
            before
        }
    }
}

/// The pieces of the page that the window shows.
pub open spec fn visible_page(b: BrowserView) -> Seq<Piece> {
    visible_first(b.page, b.page.len(), b.top_line_no, screen_lines(b))
}

/// The text of the bottom line: the mode; behind it the keys of the normal
/// mode, where the window is wide enough for them, else what was written.
pub open spec fn bottom_line(b: BrowserView) -> Seq<char> {
    let begin = mode_label(b.mode) + ": "@;
    if b.mode == Mode::Normal && b.width >= 500 {
        if b.url is Some {
            begin + "u (url), s (search)"@ + ", l (link), j (down), k (up)"@
        } else {
            begin + "u (url), s (search)"@
        }
    } else {
        begin + b.input
    }
}

impl KoxingaBrowser {
    /// The pieces of the page that the window shows, each with its place in
    /// the window.
    pub fn visible_pieces(&self) -> (pieces: Vec<(usize, usize, String, bool)>)
        requires
            well_formed(self@),
            self@.height >= 4 + LINE_HEIGHT,
        ensures
            page_view(pieces@) == visible_page(self@),
    {
        let max_lines_screen = self.max_lines_screen();
        let mut pieces: Vec<(usize, usize, String, bool)> = Vec::new();
        let ghost page = page_view(self.page@);
        let mut i: usize = 0;
        assert(page_view(pieces@) =~= Seq::<Piece>::empty());
        while i < self.page.len()
            invariant
                i <= self.page.len(),
                page == page_view(self.page@),
                pieces_below_margin(page),
                max_lines_screen == screen_lines(self@),
                page_view(pieces@) == visible_first(
                    page,
                    i as nat,
                    self.top_line_no as int,
                    max_lines_screen as int,
                ),
            decreases self.page.len() - i,
        {
            let p = &self.page[i];
            assert(page[i as int].1 >= MARGIN);
            let line_no = (p.1 - MARGIN) / LINE_HEIGHT;
            if line_no >= self.top_line_no && line_no - self.top_line_no < max_lines_screen {
                let ghost held = pieces@;
                assert(LINE_HEIGHT * self.top_line_no <= p.1 - MARGIN) by (nonlinear_arith)
                    requires
                        line_no >= self.top_line_no,
                        line_no == (p.1 - MARGIN) / (LINE_HEIGHT as int),
                        p.1 >= MARGIN,
                        LINE_HEIGHT == 18,
                ;
                pieces.push((p.0, p.1 - LINE_HEIGHT * self.top_line_no, p.2.clone(), p.3));
                assert(page_view(pieces@) =~= page_view(held).push(
                    moved_up(page[i as int], self.top_line_no as int),
                ));
            }
            i = i + 1;
        }
        pieces
    }

    /// The text of the bottom line.
    pub fn bottom_text(&self) -> (text: String)
        ensures
            text@ == bottom_line(self@),
    {
        let begin = self.mode.label().concat(": ");
        if self.mode == Mode::Normal && self.dimensions[0] >= 500 {
            let keys = begin.concat("u (url), s (search)");
            if self.url.is_some() {
                keys.concat(", l (link), j (down), k (up)")
            } else {
                keys
            }
        } else {
            begin.concat(self.input.as_str())
        }
    }
}

impl KoxingaBrowser {
    /// Tells whether the page of the document `nodes` can be laid out in a
    /// window of the given width, the links numbered where `numbered` is set.
    pub fn fits(nodes: &Vec<Box<Node>>, width: usize, numbered: bool) -> (ok: bool)
        ensures
            ok == (laid_out(body_events(forest_view(nodes@)), width as int, numbered).y
                <= usize::MAX),
    {
        let outputs = body_output(nodes);
        try_lay_out(&outputs, width, numbered).is_some()
    }

    /// Tells whether the page can be laid out as it is.
    pub fn can_calc_page(&self) -> (ok: bool)
        ensures
            ok == page_fits(self@),
    {
        KoxingaBrowser::fits(&self.top_level_nodes, self.dimensions[0], self.mode == Mode::Link)
    }

    /// Tells whether the window can take the given width and height.
    pub fn can_change_dimensions(&self, dimensions: [usize; 2]) -> (ok: bool)
        ensures
            ok == page_fits(
                resized(self@, dimensions[0] as int, dimensions[1] as int, false),
            ),
    {
        KoxingaBrowser::fits(&self.top_level_nodes, dimensions[0], self.mode == Mode::Link)
    }

    /// Tells whether the document `nodes` can be shown.
    pub fn can_show(&self, nodes: &Vec<Box<Node>>) -> (ok: bool)
        ensures
            ok == page_fits(BrowserView { forest: forest_view(nodes@), ..self@ }),
    {
        KoxingaBrowser::fits(nodes, self.dimensions[0], self.mode == Mode::Link)
    }

    /// Tells whether the browser can take the key.
    pub fn can_handle(&self, key: char) -> (ok: bool)
        requires
            well_formed(self@),
        ensures
            ok == key_allowed(self@, key),
    {
        if self.mode == Mode::Normal {
            if self.dimensions[1] < 4 + LINE_HEIGHT {
                return false;
            }
            let max_lines_screen = self.max_lines_screen();
            if (key == 'j' || key == 'G') && self.max_lines < max_lines_screen {
                return false;
            }
            if key == 'l' && self.url.is_some() {
                return KoxingaBrowser::fits(&self.top_level_nodes, self.dimensions[0], true);
            }
            true
        } else if is_enter(key) && !self.input.as_str().is_empty() {
            if self.mode == Mode::Link {
                let digits = chars_of(self.input.as_str());
                match try_read_number(&digits) {
                    Some(link_index) => {
                        if link_index < self.links.len() {
                            check_unquote(self.links[link_index].as_str())
                        } else {
                            true
                        }
                    },
                    None => false,
                }
            } else {
                true
            }
        } else if is_escape(key) && self.mode == Mode::Link {
            KoxingaBrowser::fits(&self.top_level_nodes, self.dimensions[0], false)
        } else {
            true
        }
    }
}

} // verus!
