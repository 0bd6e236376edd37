//! The layout of a page: display events placed as pieces of lines, from left
//! to right and from top to bottom, in characters of one width.

use crate::text::{
    begins_with,
    chars_of,
    decimal,
    ends_with,
    finishes_with,
    starts_with,
    to_decimal,
    trim,
    trimmed,
};
use crate::xml::{events_view, OutputEvent, OutputType};
use vstd::prelude::*;

verus! {

/// The height of a line.
pub const LINE_HEIGHT: usize = 18;

/// The width that a character takes.
pub const CHAR_WIDTH: usize = 12;

/// The distance of the page from the left and from the top.
pub const MARGIN: usize = 2;

/// One piece of the page: where it starts from the left, where from the top,
/// its text, and whether it belongs to a link.
pub type Piece = (int, int, Seq<char>, bool);

/// The values of a list of pieces.
pub open spec fn page_view(page: Seq<(usize, usize, String, bool)>) -> Seq<Piece> {
    Seq::new(page.len(), |i: int| (page[i].0 as int, page[i].1 as int, page[i].2@, page[i].3))
}

/// The values of a list of strings.
pub open spec fn strings_view(strings: Seq<String>) -> Seq<Seq<char>> {
    Seq::new(strings.len(), |i: int| strings[i]@)
}

/// The place of the next character, the piece that is being filled, and the
/// pieces that are complete.
pub struct Pen {
    pub x: int,
    pub y: int,
    pub start_x: int,
    pub line: Seq<char>,
    pub page: Seq<Piece>,
}

/// The pen behind the character `c`. Where the character would pass `width`,
/// the piece is completed as it is and the character starts a new line.
pub open spec fn put_char(pen: Pen, c: char, width: int, link: bool) -> Pen {
    let at = if pen.x + CHAR_WIDTH > width {
        Pen {
            x: MARGIN as int,
            y: pen.y + LINE_HEIGHT,
            start_x: MARGIN as int,
            line: Seq::empty(),
            page: pen.page.push((pen.start_x, pen.y, pen.line, link)),
        }
    } else {
        pen
    };
    Pen { x: at.x + CHAR_WIDTH, line: at.line.push(c), ..at }
}

/// The pen behind the first `count` characters of `s`.
pub open spec fn put_chars(pen: Pen, s: Seq<char>, count: nat, width: int, link: bool) -> Pen
    decreases count,
{
    if count == 0 {
        pen
    } else {
        put_char(put_chars(pen, s, (count - 1) as nat, width, link), s[count - 1], width, link)
    }
}

/// The state of the layout between two events.
pub struct Layout {
    /// The place of the next character from the left.
    pub x: int,
    /// The place of the next character from the top.
    pub y: int,
    /// Whether a link is open.
    pub link: bool,
    /// The number of links that were given a number.
    pub link_counter: nat,
    /// The pieces placed so far.
    pub page: Seq<Piece>,
    /// The addresses of the links that were given a number, in their order.
    pub links: Seq<Seq<char>>,
}

/// The layout before the first event.
pub open spec fn empty_layout() -> Layout {
    Layout {
        x: MARGIN as int,
        y: MARGIN as int,
        link: false,
        link_counter: 0,
        page: Seq::empty(),
        links: Seq::empty(),
    }
}

/// The pen that starts a piece at the place of the layout.
pub open spec fn pen_of(layout: Layout) -> Pen {
    Pen { x: layout.x, y: layout.y, start_x: layout.x, line: Seq::empty(), page: layout.page }
}

/// The layout behind the text `s`: its characters are placed one by one, and
/// the piece that the last of them stands in is completed.
pub open spec fn put_text(layout: Layout, s: Seq<char>, width: int) -> Layout {
    let pen = put_chars(pen_of(layout), s, s.len(), width, layout.link);
    Layout {
        x: pen.x,
        y: pen.y,
        page: if pen.line.len() > 0 {
            pen.page.push((pen.start_x, pen.y, pen.line, layout.link))
        } else {
            pen.page
        },
        ..layout
    }
}

/// A run of text as it is shown: without the white space around it, but with
/// one space in front where it begins with a space, and one behind where it
/// ends with a space.
pub open spec fn shown_text(s: Seq<char>) -> Seq<char> {
    let front = if starts_with(s, " "@) {
        " "@
    } else {
        Seq::<char>::empty()
    };
    let back = if ends_with(s, " "@) {
        " "@
    } else {
        Seq::<char>::empty()
    };
    front + trimmed(s) + back
}

/// The label of the link with the given number: the number and a colon.
pub open spec fn link_label(number: nat) -> Seq<char> {
    decimal(number) + ":"@
}

/// The layout behind one event. Text is placed as it is shown. The start of
/// a link opens the link and, where links are numbered, enters its address
/// and places its label. The end of a line moves to the start of the next
/// line. The end of a link closes the link.
pub open spec fn place_event(layout: Layout, event: OutputEvent, width: int, numbered: bool) -> Layout {
    match event {
        OutputEvent::Text(s) => put_text(layout, shown_text(s), width),
        OutputEvent::StartLink(url) => {
            let opened = Layout { link: true, ..layout };
            if numbered {
                put_text(
                    Layout {
                        links: opened.links.push(url),
                        link_counter: opened.link_counter + 1,
                        ..opened
                    },
                    link_label(opened.link_counter),
                    width,
                )
            } else {
                opened
            }
        },
        OutputEvent::Newline => Layout { x: MARGIN as int, y: layout.y + LINE_HEIGHT, ..layout },
        OutputEvent::EndLink => Layout { link: false, ..layout },
    }
}

/// The layout behind the first `count` events of `events`.
pub open spec fn place_events(
    layout: Layout,
    events: Seq<OutputEvent>,
    count: nat,
    width: int,
    numbered: bool,
) -> Layout
    decreases count,
{
    if count == 0 {
        layout
    } else {
        place_event(
            place_events(layout, events, (count - 1) as nat, width, numbered),
            events[count - 1],
            width,
            numbered,
        )
    }
}

/// The layout of a whole list of events.
pub open spec fn laid_out(events: Seq<OutputEvent>, width: int, numbered: bool) -> Layout {
    place_events(empty_layout(), events, events.len(), width, numbered)
}

/// Whether every piece of `page` stands at or below the margin.
pub open spec fn pieces_below_margin(page: Seq<Piece>) -> bool {
    forall|i: int| 0 <= i < page.len() ==> (#[trigger] page[i]).1 >= MARGIN
}

/// A pen that is below the margin stays there, and so do its pieces.
pub proof fn lemma_put_chars_below(pen: Pen, s: Seq<char>, count: nat, width: int, link: bool)
    requires
        pen.y >= MARGIN,
        pieces_below_margin(pen.page),
    ensures
        put_chars(pen, s, count, width, link).y >= MARGIN,
        pieces_below_margin(put_chars(pen, s, count, width, link).page),
    decreases count,
{
    if count > 0 {
        lemma_put_chars_below(pen, s, (count - 1) as nat, width, link);
    }
}

/// No event places a piece above the margin.
pub proof fn lemma_place_events_below(
    events: Seq<OutputEvent>,
    count: nat,
    width: int,
    numbered: bool,
)
    ensures
        place_events(empty_layout(), events, count, width, numbered).y >= MARGIN,
        pieces_below_margin(place_events(empty_layout(), events, count, width, numbered).page),
    decreases count,
{
    if count > 0 {
        let before = place_events(empty_layout(), events, (count - 1) as nat, width, numbered);
        lemma_place_events_below(events, (count - 1) as nat, width, numbered);
        match events[count - 1] {
            OutputEvent::Text(s) => {
                lemma_put_chars_below(
                    pen_of(before),
                    shown_text(s),
                    shown_text(s).len(),
                    width,
                    before.link,
                );
            },
            OutputEvent::StartLink(url) => {
                let at = Layout {
                    link: true,
                    links: before.links.push(url),
                    link_counter: before.link_counter + 1,
                    ..before
                };
                let label = link_label(before.link_counter);
                lemma_put_chars_below(pen_of(at), label, label.len(), width, true);
            },
            _ => {},
        }
    }
}

/// The pen does not go up while it places characters.
pub proof fn lemma_put_chars_down(pen: Pen, s: Seq<char>, count: nat, more: nat, width: int, link: bool)
    requires
        count <= more,
    ensures
        put_chars(pen, s, count, width, link).y <= put_chars(pen, s, more, width, link).y,
    decreases more,
{
    if count < more {
        lemma_put_chars_down(pen, s, count, (more - 1) as nat, width, link);
    }
}

/// The layout does not go up over an event.
pub proof fn lemma_place_event_down(layout: Layout, event: OutputEvent, width: int, numbered: bool)
    ensures
        layout.y <= place_event(layout, event, width, numbered).y,
{
    match event {
        OutputEvent::Text(s) => {
            lemma_put_chars_down(
                pen_of(layout),
                shown_text(s),
                0,
                shown_text(s).len(),
                width,
                layout.link,
            );
        },
        OutputEvent::StartLink(url) => {
            let at = Layout {
                link: true,
                links: layout.links.push(url),
                link_counter: layout.link_counter + 1,
                ..layout
            };
            let label = link_label(layout.link_counter);
            lemma_put_chars_down(pen_of(at), label, 0, label.len(), width, true);
        },
        _ => {},
    }
}

/// The layout does not go up over any number of events.
pub proof fn lemma_place_events_down(
    layout: Layout,
    events: Seq<OutputEvent>,
    count: nat,
    more: nat,
    width: int,
    numbered: bool,
)
    requires
        count <= more,
    ensures
        place_events(layout, events, count, width, numbered).y <= place_events(
            layout,
            events,
            more,
            width,
            numbered,
        ).y,
    decreases more,
{
    if count < more {
        lemma_place_events_down(layout, events, count, (more - 1) as nat, width, numbered);
        lemma_place_event_down(
            place_events(layout, events, (more - 1) as nat, width, numbered),
            events[more - 1],
            width,
            numbered,
        );
    }
}

/// A run of text as it is shown.
pub fn display_text(s: &str) -> (shown: Vec<char>)
    ensures
        shown@ == shown_text(s@),
{
    let chars = chars_of(s);
    let inner = trim(&chars);
    let mut shown: Vec<char> = Vec::new();
    proof {
        reveal_strlit(" ");
    }
    if begins_with(&chars, " ") {
        shown.push(' ');
    }
    let ghost front = shown@;
    assert(front =~= if starts_with(s@, " "@) {
        " "@
    } else {
        Seq::<char>::empty()
    });
    let mut i: usize = 0;
    while i < inner.len()
        invariant
            i <= inner.len(),
            shown@ == front + inner@.take(i as int),
        decreases inner.len() - i,
    {
        shown.push(inner[i]);
        i = i + 1;
        assert(shown@ =~= front + inner@.take(i as int));
    }
    assert(inner@.take(inner.len() as int) =~= inner@);
    if finishes_with(&chars, " ") {
        shown.push(' ');
        assert(shown@ =~= front + inner@ + " "@);
    } else {
        assert(shown@ =~= front + inner@ + Seq::<char>::empty());
    }
    shown
}

/// The label of the link with the given number.
pub fn label_of(number: usize) -> (label: Vec<char>)
    ensures
        label@ == link_label(number as nat),
{
    let mut label = to_decimal(number);
    label.push(':');
    proof {
        reveal_strlit(":");
        assert(label@ =~= link_label(number as nat));
    }
    label
}

/// Places the characters of `s` from the place `(x, y)` on, appends the
/// pieces that they fill to `page`, and moves the place behind them. Gives up
/// and returns `false` where a line would start lower than can be held.
fn write_text(
    page: &mut Vec<(usize, usize, String, bool)>,
    x: &mut usize,
    y: &mut usize,
    s: &Vec<char>,
    width: usize,
    link: bool,
) -> (done: bool)
    ensures
        ({
            let pen = put_chars(
                Pen {
                    x: *old(x) as int,
                    y: *old(y) as int,
                    start_x: *old(x) as int,
                    line: Seq::empty(),
                    page: page_view(old(page)@),
                },
                s@,
                s@.len(),
                width as int,
                link,
            );
            &&& done == (pen.y <= usize::MAX)
            &&& done ==> {
                &&& *final(x) == pen.x
                &&& *final(y) == pen.y
                &&& page_view(final(page)@) == if pen.line.len() > 0 {
                    pen.page.push((pen.start_x, pen.y, pen.line, link))
                } else {
                    pen.page
                }
            }
        }),
{
    let ghost start = Pen {
        x: *x as int,
        y: *y as int,
        start_x: *x as int,
        line: Seq::empty(),
        page: page_view(page@),
    };
    let mut line = String::new();
    let mut start_x: usize = *x;
    let mut i: usize = 0;
    while i < s.len()
        invariant
            i <= s.len(),
            start == (Pen {
                x: *old(x) as int,
                y: *old(y) as int,
                start_x: *old(x) as int,
                line: Seq::empty(),
                page: page_view(old(page)@),
            }),
            ({
                let pen = put_chars(start, s@, i as nat, width as int, link);
                &&& *x == pen.x
                &&& *y == pen.y
                &&& start_x == pen.start_x
                &&& line@ == pen.line
                &&& page_view(page@) == pen.page
            }),
        decreases s.len() - i,
    {
        let ghost before = put_chars(start, s@, i as nat, width as int, link);
        proof {
            lemma_put_chars_down(start, s@, (i + 1) as nat, s@.len(), width as int, link);
        }
        if width < CHAR_WIDTH || *x > width - CHAR_WIDTH {
            if *y > usize::MAX - LINE_HEIGHT {
                assert(put_chars(start, s@, (i + 1) as nat, width as int, link).y == before.y
                    + LINE_HEIGHT);
                return false;
            }
            let ghost held = page@;
            let mut done = String::new();
            std::mem::swap(&mut line, &mut done);
            page.push((start_x, *y, done, link));
            assert(page_view(page@) =~= page_view(held).push(
                (before.start_x, before.y, before.line, link),
            ));
            *x = MARGIN;
            start_x = MARGIN;
            *y = *y + LINE_HEIGHT;
        }
        line.push(s[i]);
        *x = *x + CHAR_WIDTH;
        i = i + 1;
    }
    if !line.as_str().is_empty() {
        let ghost held = page@;
        let ghost pen = put_chars(start, s@, s@.len(), width as int, link);
        page.push((start_x, *y, line, link));
        assert(page_view(page@) =~= page_view(held).push((pen.start_x, pen.y, pen.line, link)));
    }
    true
}

/// Lays out `events` on a page of the given width. Returns the pieces of the
/// page, the addresses of the numbered links, and the place from the top at
/// which the page ends; nothing where that place is lower than can be held.
/// Links are numbered, from 0 on, where `numbered` is set.
pub fn try_lay_out(events: &Vec<OutputType>, width: usize, numbered: bool) -> (result: Option<
    (Vec<(usize, usize, String, bool)>, Vec<String>, usize),
>)
    ensures
        result is Some == (laid_out(events_view(events@), width as int, numbered).y
            <= usize::MAX),
        result matches Some(placed) ==> {
            &&& page_view(placed.0@) == laid_out(events_view(events@), width as int, numbered).page
            &&& strings_view(placed.1@) == laid_out(
                events_view(events@),
                width as int,
                numbered,
            ).links
            &&& placed.2 == laid_out(events_view(events@), width as int, numbered).y
        },
{
    let ghost all = events_view(events@);
    let mut page: Vec<(usize, usize, String, bool)> = Vec::new();
    let mut links: Vec<String> = Vec::new();
    let mut x: usize = MARGIN;
    let mut y: usize = MARGIN;
    let mut colour = false;
    let mut link_counter: usize = 0;
    let mut i: usize = 0;
    assert(page_view(page@) =~= Seq::<Piece>::empty());
    assert(strings_view(links@) =~= Seq::<Seq<char>>::empty());
    while i < events.len()
        invariant
            i <= events.len(),
            all == events_view(events@),
            link_counter <= i,
            place_events(empty_layout(), all, i as nat, width as int, numbered) == (Layout {
                x: x as int,
                y: y as int,
                link: colour,
                link_counter: link_counter as nat,
                page: page_view(page@),
                links: strings_view(links@),
            }),
        decreases events.len() - i,
    {
        proof {
            lemma_place_events_down(
                empty_layout(),
                all,
                (i + 1) as nat,
                all.len(),
                width as int,
                numbered,
            );
            assert(all[i as int] == events@[i as int]@);
        }
        let mut done = true;
        match &events[i] {
            OutputType::Text(s) => {
                let shown = display_text(s.as_str());
                done = write_text(&mut page, &mut x, &mut y, &shown, width, colour);
            },
            OutputType::StartLink(link) => {
                colour = true;
                if numbered {
                    let ghost held = links@;
                    links.push(link.clone());
                    assert(strings_view(links@) =~= strings_view(held).push(link@));
                    let label = label_of(link_counter);
                    link_counter = link_counter + 1;
                    done = write_text(&mut page, &mut x, &mut y, &label, width, colour);
                }
            },
            OutputType::Newline => {
                if y > usize::MAX - LINE_HEIGHT {
                    done = false;
                } else {
                    x = MARGIN;
                    y = y + LINE_HEIGHT;
                }
            },
            OutputType::EndLink => {
                colour = false;
            },
        }
        if !done {
            return None;
        }
        i = i + 1;
    }
    Some((page, links, y))
}

/// Lays out `events` on a page of the given width. Returns the pieces of the
/// page, the addresses of the numbered links, and the place from the top at
/// which the page ends. Links are numbered, from 0 on, where `numbered` is set.
pub fn lay_out(events: &Vec<OutputType>, width: usize, numbered: bool) -> (result: (
    Vec<(usize, usize, String, bool)>,
    Vec<String>,
    usize,
))
    requires
        laid_out(events_view(events@), width as int, numbered).y <= usize::MAX,
    ensures
        page_view(result.0@) == laid_out(events_view(events@), width as int, numbered).page,
        strings_view(result.1@) == laid_out(events_view(events@), width as int, numbered).links,
        result.2 == laid_out(events_view(events@), width as int, numbered).y,
{
    match try_lay_out(events, width, numbered) {
        Some(placed) => placed,
        None => (Vec::new(), Vec::new(), 0),
    }
}

} // verus!
