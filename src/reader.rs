//! The document builder: turns a stream of markup events into a nodo.
use vstd::prelude::*;
use crate::events::{Event, Tag, event_text};
use crate::text::{lemma_split_nonempty, has_prefix, split_on, split_trimmed, starts_with, trim, trim_start, trim_start_str, trim_str, is_char};
use crate::dates::{parse_date, parsed_date};
use crate::error::ReadError;
use crate::nodo::{Date, Nodo, NodoBuilder, SpecNodo};
use crate::nodo::{Block, List, ListItem, SpecBlock, SpecList, SpecListItem, view_blocks, view_list_items, SpecTextItem, Text, TextItem, TextStyle, view_lines, view_strings, view_text_items};

verus! {

/// Ends a line: a line with content joins the lines read so far.
pub open spec fn close_line(
    lines: Seq<Seq<SpecTextItem>>,
    line: Seq<SpecTextItem>,
) -> Seq<Seq<SpecTextItem>> {
    if line.len() > 0 {
        lines.push(line)
    } else {
        lines
    }
}

/// Whether an event begins a piece of inline text.
pub open spec fn is_inline(e: Event) -> bool {
    match e {
        Event::Text(_) | Event::Code(_) => true,
        Event::Start(Tag::Emphasis) | Event::Start(Tag::Strong) | Event::Start(
            Tag::Strikethrough,
        ) | Event::Start(Tag::Link(_)) => true,
        _ => false,
    }
}

/// The text of a styled span from `p` on, after its start: its text runs, then its end.
pub open spec fn styled_from(ev: Seq<Event>, p: int, acc: Seq<char>) -> Option<(SpecTextItem, int)>
    decreases ev.len() - p,
{
    if p < 0 || p >= ev.len() {
        None
    } else {
        match ev[p] {
            Event::Text(s) => styled_from(ev, p + 1, acc + s@),
            Event::End(Tag::Emphasis) => Some((SpecTextItem::Styled(acc, TextStyle::Emphasis), p + 1)),
            Event::End(Tag::Strong) => Some((SpecTextItem::Styled(acc, TextStyle::Strong), p + 1)),
            Event::End(Tag::Strikethrough) => Some(
                (SpecTextItem::Styled(acc, TextStyle::Strikethrough), p + 1),
            ),
            _ => None,
        }
    }
}

/// The name of a link from `p` on, after its start: its text runs, then its end.
pub open spec fn link_from(ev: Seq<Event>, p: int, acc: Seq<char>, uri: Seq<char>) -> Option<
    (SpecTextItem, int),
>
    decreases ev.len() - p,
{
    if p < 0 || p >= ev.len() {
        None
    } else {
        match ev[p] {
            Event::Text(s) => link_from(ev, p + 1, acc + s@, uri),
            Event::End(Tag::Link(_)) => Some((SpecTextItem::Link(acc, uri), p + 1)),
            _ => None,
        }
    }
}

/// The piece of inline text that begins at `p`, and the position after it.
pub open spec fn inline_from(ev: Seq<Event>, p: int) -> Option<(SpecTextItem, int)> {
    if p < 0 || p >= ev.len() {
        None
    } else {
        match ev[p] {
            Event::Text(s) => Some((SpecTextItem::Plain(s@), p + 1)),
            Event::Code(s) => Some((SpecTextItem::Styled(s@, TextStyle::Code), p + 1)),
            Event::Start(Tag::Emphasis) | Event::Start(Tag::Strong) | Event::Start(
                Tag::Strikethrough,
            ) => styled_from(ev, p + 1, Seq::empty()),
            Event::Start(Tag::Link(u)) => link_from(ev, p + 1, Seq::empty(), u@),
            _ => None,
        }
    }
}

/// The lines of a paragraph from `p` on, after its start, up to its end; a soft
/// or hard break ends a line.
pub open spec fn paragraph_from(
    ev: Seq<Event>,
    p: int,
    lines: Seq<Seq<SpecTextItem>>,
    line: Seq<SpecTextItem>,
) -> Option<(Seq<Seq<SpecTextItem>>, int)>
    decreases ev.len() - p,
{
    if p < 0 || p >= ev.len() {
        None
    } else {
        match ev[p] {
            Event::End(Tag::Paragraph) => Some((close_line(lines, line), p + 1)),
            Event::SoftBreak | Event::HardBreak => paragraph_from(ev, p + 1, close_line(lines, line), Seq::empty()),
            _ => if is_inline(ev[p]) {
                match inline_from(ev, p) {
                    Some((it, q)) => if p < q <= ev.len() {
                        paragraph_from(ev, q, lines, line.push(it))
                    } else {
                        None
                    },
                    None => None,
                }
            } else {
                None
            },
        }
    }
}

/// The text of a heading from `p` on, after its start, up to its end.
pub open spec fn heading_from(ev: Seq<Event>, p: int, acc: Seq<SpecTextItem>) -> Option<
    (Seq<SpecTextItem>, int),
>
    decreases ev.len() - p,
{
    if p < 0 || p >= ev.len() {
        None
    } else {
        match ev[p] {
            Event::End(Tag::Heading(_)) => Some((acc, p + 1)),
            _ => if is_inline(ev[p]) {
                match inline_from(ev, p) {
                    Some((it, q)) => if p < q <= ev.len() {
                        heading_from(ev, q, acc.push(it))
                    } else {
                        None
                    },
                    None => None,
                }
            } else {
                None
            },
        }
    }
}

/// The raw lines of a code block from `p` on, after its start, up to its end.
pub open spec fn code_from(ev: Seq<Event>, p: int, acc: Seq<Seq<char>>) -> Option<
    (Seq<Seq<char>>, int),
>
    decreases ev.len() - p,
{
    if p < 0 || p >= ev.len() {
        None
    } else {
        match ev[p] {
            Event::End(Tag::CodeBlock(_)) => Some((acc, p + 1)),
            Event::Text(s) => code_from(ev, p + 1, acc.push(s@)),
            _ => None,
        }
    }
}

fn is_inline_event(e: &Event) -> (r: bool)
    ensures
        r == is_inline(*e),
{
    match e {
        Event::Text(_) | Event::Code(_) => true,
        Event::Start(Tag::Emphasis) | Event::Start(Tag::Strong) | Event::Start(
            Tag::Strikethrough,
        ) | Event::Start(Tag::Link(_)) => true,
        _ => false,
    }
}

/// Reads the piece of inline text that begins at `p`.
fn read_inline(ev: &Vec<Event>, p: usize) -> (r: Option<(TextItem, usize)>)
    ensures
        match r {
            Some((it, q)) => inline_from(ev@, p as int) == Some((it.view(), q as int)),
            None => inline_from(ev@, p as int) is None,
        },
{
    if p >= ev.len() {
        return None;
    }
    match &ev[p] {
        Event::Text(s) => Some((TextItem::PlainText(s.clone()), p + 1)),
        Event::Code(s) => Some((TextItem::StyledText(s.clone(), TextStyle::Code), p + 1)),
        Event::Start(Tag::Emphasis) | Event::Start(Tag::Strong) | Event::Start(Tag::Strikethrough) => {
            let mut acc = String::new();
            let mut i: usize = p + 1;
            while i < ev.len()
                invariant
                    p < i <= ev.len(),
                    inline_from(ev@, p as int) == styled_from(ev@, p + 1, Seq::empty()),
                    styled_from(ev@, p + 1, Seq::empty()) == styled_from(ev@, i as int, acc@),
                decreases ev.len() - i,
            {
                match &ev[i] {
                    Event::Text(s) => {
                        acc.append(s.as_str());
                        i = i + 1;
                    },
                    Event::End(Tag::Emphasis) => {
                        return Some((TextItem::StyledText(acc, TextStyle::Emphasis), i + 1));
                    },
                    Event::End(Tag::Strong) => {
                        return Some((TextItem::StyledText(acc, TextStyle::Strong), i + 1));
                    },
                    Event::End(Tag::Strikethrough) => {
                        return Some((TextItem::StyledText(acc, TextStyle::Strikethrough), i + 1));
                    },
                    _ => {
                        return None;
                    },
                }
            }
            None
        },
        Event::Start(Tag::Link(u)) => {
            let mut acc = String::new();
            let mut i: usize = p + 1;
            while i < ev.len()
                invariant
                    p < i <= ev.len(),
                    inline_from(ev@, p as int) == link_from(ev@, p + 1, Seq::empty(), u@),
                    link_from(ev@, p + 1, Seq::empty(), u@) == link_from(ev@, i as int, acc@, u@),
                decreases ev.len() - i,
            {
                match &ev[i] {
                    Event::Text(s) => {
                        acc.append(s.as_str());
                        i = i + 1;
                    },
                    Event::End(Tag::Link(_)) => {
                        return Some((TextItem::Link(acc, u.clone()), i + 1));
                    },
                    _ => {
                        return None;
                    },
                }
            }
            None
        },
        _ => None,
    }
}

/// Reads the lines of a paragraph whose start stands before `p`.
fn read_paragraph(ev: &Vec<Event>, p: usize) -> (r: Option<(Vec<Text>, usize)>)
    ensures
        match r {
            Some((lines, q)) => paragraph_from(ev@, p as int, Seq::empty(), Seq::empty()) == Some(
                (view_lines(lines@), q as int),
            ),
            None => paragraph_from(ev@, p as int, Seq::empty(), Seq::empty()) is None,
        },
{
    if p >= ev.len() {
        return None;
    }
    let mut lines: Vec<Text> = Vec::new();
    let mut line: Vec<TextItem> = Vec::new();
    let mut i: usize = p;
    proof {
        assert(view_lines(lines@) =~= Seq::empty());
        assert(view_text_items(line@) =~= Seq::empty());
    }
    while i < ev.len()
        invariant
            p <= i <= ev.len(),
            paragraph_from(ev@, p as int, Seq::empty(), Seq::empty()) == paragraph_from(
                ev@,
                i as int,
                view_lines(lines@),
                view_text_items(line@),
            ),
        decreases ev.len() - i,
    {
        let ghost lv = view_lines(lines@);
        let ghost tv = view_text_items(line@);
        match &ev[i] {
            Event::End(Tag::Paragraph) => {
                if line.len() > 0 {
                    lines.push(Text { inner: line });
                    assert(view_lines(lines@) =~= lv.push(tv));
                }
                return Some((lines, i + 1));
            },
            Event::SoftBreak | Event::HardBreak => {
                if line.len() > 0 {
                    lines.push(Text { inner: line });
                    assert(view_lines(lines@) =~= lv.push(tv));
                }
                line = Vec::new();
                assert(view_text_items(line@) =~= Seq::empty());
                i = i + 1;
            },
            _ => {
                if !is_inline_event(&ev[i]) {
                    return None;
                }
                match read_inline(ev, i) {
                    Some((it, q)) => {
                        if q <= i || q > ev.len() {
                            return None;
                        }
                        line.push(it);
                        assert(view_text_items(line@) =~= tv.push(it.view()));
                        i = q;
                    },
                    None => {
                        return None;
                    },
                }
            },
        }
    }
    None
}

/// Reads the text of a heading whose start stands before `p`.
fn read_heading(ev: &Vec<Event>, p: usize) -> (r: Option<(Text, usize)>)
    ensures
        match r {
            Some((t, q)) => heading_from(ev@, p as int, Seq::empty()) == Some((t.view(), q as int)),
            None => heading_from(ev@, p as int, Seq::empty()) is None,
        },
{
    if p >= ev.len() {
        return None;
    }
    let mut line: Vec<TextItem> = Vec::new();
    let mut i: usize = p;
    proof {
        assert(view_text_items(line@) =~= Seq::empty());
    }
    while i < ev.len()
        invariant
            p <= i <= ev.len(),
            heading_from(ev@, p as int, Seq::empty()) == heading_from(
                ev@,
                i as int,
                view_text_items(line@),
            ),
        decreases ev.len() - i,
    {
        let ghost tv = view_text_items(line@);
        match &ev[i] {
            Event::End(Tag::Heading(_)) => {
                return Some((Text { inner: line }, i + 1));
            },
            _ => {
                if !is_inline_event(&ev[i]) {
                    return None;
                }
                match read_inline(ev, i) {
                    Some((it, q)) => {
                        if q <= i || q > ev.len() {
                            return None;
                        }
                        line.push(it);
                        assert(view_text_items(line@) =~= tv.push(it.view()));
                        i = q;
                    },
                    None => {
                        return None;
                    },
                }
            },
        }
    }
    None
}

/// Reads the raw lines of a code block whose start stands before `p`.
fn read_code(ev: &Vec<Event>, p: usize) -> (r: Option<(Vec<String>, usize)>)
    ensures
        match r {
            Some((lines, q)) => code_from(ev@, p as int, Seq::empty()) == Some(
                (view_strings(lines@), q as int),
            ),
            None => code_from(ev@, p as int, Seq::empty()) is None,
        },
{
    if p >= ev.len() {
        return None;
    }
    let mut lines: Vec<String> = Vec::new();
    let mut i: usize = p;
    proof {
        assert(view_strings(lines@) =~= Seq::empty());
    }
    while i < ev.len()
        invariant
            p <= i <= ev.len(),
            code_from(ev@, p as int, Seq::empty()) == code_from(
                ev@,
                i as int,
                view_strings(lines@),
            ),
        decreases ev.len() - i,
    {
        let ghost sv = view_strings(lines@);
        match &ev[i] {
            Event::End(Tag::CodeBlock(_)) => {
                return Some((lines, i + 1));
            },
            Event::Text(s) => {
                lines.push(s.clone());
                assert(view_strings(lines@) =~= sv.push(s@));
                i = i + 1;
            },
            _ => {
                return None;
            },
        }
    }
    None
}

// ---- task inference ----
/// The first run with its leading white space removed, if it is plain text.
pub open spec fn strip_front(s: Seq<SpecTextItem>) -> Seq<SpecTextItem> {
    if s.len() > 0 && s[0] is Plain {
        s.update(0, SpecTextItem::Plain(trim_start(s[0]->Plain_0)))
    } else {
        s
    }
}

/// A checkbox written as plain runs at the start of a line: `[` then `]`, or
/// `[` then a mark (`x`, `X` or only white space) then `]`, each run with any
/// white space around it. Gives whether it is ticked and the rest of the line.
pub open spec fn checkbox_items(s: Seq<SpecTextItem>) -> Option<(bool, Seq<SpecTextItem>)> {
    if s.len() >= 2 && s[0] is Plain && s[1] is Plain && trim(s[0]->Plain_0) == seq!['['] {
        let mark = trim(s[1]->Plain_0);
        if mark == seq![']'] {
            Some((false, strip_front(s.subrange(2, s.len() as int))))
        } else if (mark == seq!['x'] || mark == seq!['X'] || mark.len() == 0) && s.len() >= 3
            && s[2] is Plain && trim(s[2]->Plain_0) == seq![']'] {
            Some((mark.len() != 0, strip_front(s.subrange(3, s.len() as int))))
        } else {
            None
        }
    } else {
        None
    }
}

/// A list item without a task marker: a task if the first line of its first
/// block, a paragraph, begins with a checkbox, else a text item.
pub open spec fn infer_item(blocks: Seq<SpecBlock>, nested: Option<SpecList>) -> SpecListItem {
    if blocks.len() > 0 && blocks[0] is Paragraph && blocks[0]->Paragraph_0.len() > 0 {
        let lines = blocks[0]->Paragraph_0;
        match checkbox_items(lines[0]) {
            Some((done, rest)) => SpecListItem::Task(
                blocks.update(0, SpecBlock::Paragraph(lines.update(0, rest))),
                done,
                nested,
            ),
            None => SpecListItem::Text(blocks, nested),
        }
    } else {
        SpecListItem::Text(blocks, nested)
    }
}

fn plain_is(item: &TextItem, c: char) -> (r: bool)
    ensures
        r == (item.view() is Plain && trim(item.view()->Plain_0) == seq![c]),
{
    match item {
        TextItem::PlainText(t) => is_char(trim_str(t.as_str()), c),
        _ => false,
    }
}

/// How many runs a checkbox at the start of `s` takes, and whether it is ticked.
fn checkbox(s: &Vec<TextItem>) -> (r: Option<(bool, usize)>)
    ensures
        match r {
            Some((done, k)) => k <= s@.len() && checkbox_items(view_text_items(s@)) == Some(
                (done, strip_front(view_text_items(s@).subrange(k as int, s@.len() as int))),
            ),
            None => checkbox_items(view_text_items(s@)) is None,
        },
{
    let ghost v = view_text_items(s@);
    if s.len() < 2 || !plain_is(&s[0], '[') {
        return None;
    }
    match &s[1] {
        TextItem::PlainText(t2) => {
            let mark = trim_str(t2.as_str());
            if is_char(mark, ']') {
                return Some((false, 2));
            }
            let n = mark.unicode_len();
            let empty = n == 0;
            if is_char(mark, 'x') || is_char(mark, 'X') || empty {
                if s.len() >= 3 && plain_is(&s[2], ']') {
                    return Some((!empty, 3));
                }
            }
            None
        },
        _ => None,
    }
}

/// Removes the leading white space of the first run, if it is plain text.
fn strip_first(s: &mut Vec<TextItem>)
    ensures
        view_text_items(final(s)@) == strip_front(view_text_items(old(s)@)),
{
    if s.len() > 0 {
        let is_plain = match &s[0] {
            TextItem::PlainText(_) => true,
            _ => false,
        };
        if is_plain {
            let first = s.remove(0);
            match first {
                TextItem::PlainText(t) => {
                    let stripped = String::from_str(trim_start_str(t.as_str()));
                    s.insert(0, TextItem::PlainText(stripped));
                },
                _ => {},
            }
            assert(view_text_items(s@) =~= strip_front(view_text_items(old(s)@)));
            return;
        }
    }
    assert(view_text_items(s@) =~= strip_front(view_text_items(old(s)@)));
}

pub open spec fn view_nested(n: Option<List>) -> Option<SpecList> {
    match n {
        Some(l) => Some(l.view()),
        None => None,
    }
}

/// Classifies a list item that had no task marker.
fn infer(blocks: Vec<Block>, nested: Option<List>) -> (r: ListItem)
    ensures
        r.view() == infer_item(view_blocks(blocks@), view_nested(nested)),
{
    let ghost bv = view_blocks(blocks@);
    let mut blocks = blocks;
    if blocks.len() == 0 {
        return ListItem::Text(blocks, nested);
    }
    let is_candidate = match &blocks[0] {
        Block::Paragraph(lines) => lines.len() > 0,
        _ => false,
    };
    if !is_candidate {
        return ListItem::Text(blocks, nested);
    }
    let found = match &blocks[0] {
        Block::Paragraph(lines) => checkbox(&lines[0].inner),
        _ => None,
    };
    match found {
        None => ListItem::Text(blocks, nested),
        Some((done, k)) => {
            let first = blocks.remove(0);
            match first {
                Block::Paragraph(lines) => {
                    let mut lines = lines;
                    let ghost lv = view_lines(lines@);
                    let line = lines.remove(0);
                    let mut inner = line.inner;
                    let ghost iv = view_text_items(inner@);
                    let mut rest = inner.split_off(k);
                    assert(view_text_items(rest@) =~= iv.subrange(k as int, iv.len() as int));
                    strip_first(&mut rest);
                    lines.insert(0, Text { inner: rest });
                    assert(view_lines(lines@) =~= lv.update(0, strip_front(iv.subrange(k as int, iv.len() as int))));
                    blocks.insert(0, Block::Paragraph(lines));
                    assert(view_blocks(blocks@) =~= bv.update(0, SpecBlock::Paragraph(view_lines(lines@))));
                    ListItem::Task(blocks, done, nested)
                },
                _ => ListItem::Text(blocks, nested),
            }
        },
    }
}

// ---- blocks, lists and list items ----
/// What a list item has gathered so far.
pub struct ItemAcc {
    pub blocks: Seq<SpecBlock>,
    pub lines: Seq<Seq<SpecTextItem>>,
    pub line: Seq<SpecTextItem>,
    pub marker: Option<bool>,
    pub nested: Option<SpecList>,
}

pub open spec fn empty_item() -> ItemAcc {
    ItemAcc {
        blocks: Seq::empty(),
        lines: Seq::empty(),
        line: Seq::empty(),
        marker: None,
        nested: None,
    }
}

/// The item once its end is reached: the pending lines form a paragraph after
/// its other blocks; a task marker makes it a task, else the checkbox decides.
pub open spec fn finish_item(acc: ItemAcc) -> SpecListItem {
    let lines = close_line(acc.lines, acc.line);
    let blocks = if lines.len() > 0 {
        acc.blocks.push(SpecBlock::Paragraph(lines))
    } else {
        acc.blocks
    };
    match acc.marker {
        Some(done) => SpecListItem::Task(blocks, done, acc.nested),
        None => infer_item(blocks, acc.nested),
    }
}

/// A plain list, or a numbered one whose first index fits in 32 bits.
pub open spec fn list_kind(start: Option<u64>, items: Seq<SpecListItem>) -> Option<SpecList> {
    match start {
        None => Some(SpecList::Plain(items)),
        Some(n) => if n <= u32::MAX {
            Some(SpecList::Numbered(items, n as u32))
        } else {
            None
        },
    }
}

/// The blocks from `p` on: up to the end of the stream, or inside a block
/// quote up to its end.
pub open spec fn blocks_from(ev: Seq<Event>, p: int, acc: Seq<SpecBlock>, in_quote: bool) -> Option<
    (Seq<SpecBlock>, int),
>
    decreases ev.len() - p, 1int,
{
    if p < 0 || p > ev.len() {
        None
    } else if p == ev.len() {
        if in_quote {
            None
        } else {
            Some((acc, p))
        }
    } else if in_quote && (ev[p] matches Event::End(Tag::BlockQuote)) {
        Some((acc, p + 1))
    } else {
        match block_at(ev, p) {
            Some((b, q)) => if p < q <= ev.len() {
                blocks_from(ev, q, acc.push(b), in_quote)
            } else {
                None
            },
            None => None,
        }
    }
}

/// The block that begins at `p`.
pub open spec fn block_at(ev: Seq<Event>, p: int) -> Option<(SpecBlock, int)>
    decreases ev.len() - p, 0int,
{
    if p < 0 || p >= ev.len() {
        None
    } else {
        match ev[p] {
            Event::Start(Tag::Heading(l)) => match heading_from(ev, p + 1, Seq::empty()) {
                Some((t, q)) => Some((SpecBlock::Heading(t, l), q)),
                None => None,
            },
            Event::Start(Tag::List(n)) => match list_from(ev, p + 1, Seq::empty()) {
                Some((items, q)) => match list_kind(n, items) {
                    Some(l) => Some((SpecBlock::List(l), q)),
                    None => None,
                },
                None => None,
            },
            Event::Start(Tag::Paragraph) => match paragraph_from(
                ev,
                p + 1,
                Seq::empty(),
                Seq::empty(),
            ) {
                Some((lines, q)) => Some((SpecBlock::Paragraph(lines), q)),
                None => None,
            },
            Event::Rule => Some((SpecBlock::Rule, p + 1)),
            Event::Start(Tag::BlockQuote) => match blocks_from(ev, p + 1, Seq::empty(), true) {
                Some((bs, q)) => Some((SpecBlock::BlockQuote(bs), q)),
                None => None,
            },
            Event::Start(Tag::CodeBlock(lang)) => match code_from(ev, p + 1, Seq::empty()) {
                Some((lines, q)) => Some((SpecBlock::Code(lang@, lines), q)),
                None => None,
            },
            _ => None,
        }
    }
}

/// The items of a list from `p` on, after its start, up to its end.
pub open spec fn list_from(ev: Seq<Event>, p: int, items: Seq<SpecListItem>) -> Option<
    (Seq<SpecListItem>, int),
>
    decreases ev.len() - p, 0int,
{
    if p < 0 || p >= ev.len() {
        None
    } else {
        match ev[p] {
            Event::End(Tag::List(_)) => Some((items, p + 1)),
            Event::Start(Tag::Item) => match item_from(ev, p + 1, empty_item()) {
                Some((it, q)) => if p < q <= ev.len() {
                    list_from(ev, q, items.push(it))
                } else {
                    None
                },
                None => None,
            },
            _ => None,
        }
    }
}

/// A list item from `p` on, after its start, up to its end.
pub open spec fn item_from(ev: Seq<Event>, p: int, acc: ItemAcc) -> Option<(SpecListItem, int)>
    decreases ev.len() - p, 0int,
{
    if p < 0 || p >= ev.len() {
        None
    } else {
        match ev[p] {
            Event::End(Tag::Item) => Some((finish_item(acc), p + 1)),
            Event::Start(Tag::List(n)) => match list_from(ev, p + 1, Seq::empty()) {
                Some((items, q)) => match list_kind(n, items) {
                    Some(l) => if p < q <= ev.len() {
                        item_from(ev, q, ItemAcc { nested: Some(l), ..acc })
                    } else {
                        None
                    },
                    None => None,
                },
                None => None,
            },
            Event::TaskListMarker(done) => item_from(ev, p + 1, ItemAcc { marker: Some(done), ..acc }),
            Event::SoftBreak | Event::HardBreak => item_from(
                ev,
                p + 1,
                ItemAcc { lines: close_line(acc.lines, acc.line), line: Seq::empty(), ..acc },
            ),
            Event::Start(Tag::Paragraph) => match paragraph_from(
                ev,
                p + 1,
                Seq::empty(),
                Seq::empty(),
            ) {
                Some((lines, q)) => if p < q <= ev.len() {
                    item_from(
                        ev,
                        q,
                        ItemAcc { blocks: acc.blocks.push(SpecBlock::Paragraph(lines)), ..acc },
                    )
                } else {
                    None
                },
                None => None,
            },
            Event::Start(Tag::BlockQuote) => match blocks_from(ev, p + 1, Seq::empty(), true) {
                Some((bs, q)) => if p < q <= ev.len() {
                    item_from(
                        ev,
                        q,
                        ItemAcc { blocks: acc.blocks.push(SpecBlock::BlockQuote(bs)), ..acc },
                    )
                } else {
                    None
                },
                None => None,
            },
            Event::Start(Tag::CodeBlock(lang)) => match code_from(ev, p + 1, Seq::empty()) {
                Some((lines, q)) => if p < q <= ev.len() {
                    item_from(
                        ev,
                        q,
                        ItemAcc { blocks: acc.blocks.push(SpecBlock::Code(lang@, lines)), ..acc },
                    )
                } else {
                    None
                },
                None => None,
            },
            _ => if is_inline(ev[p]) {
                match inline_from(ev, p) {
                    Some((it, q)) => if p < q <= ev.len() {
                        item_from(ev, q, ItemAcc { line: acc.line.push(it), ..acc })
                    } else {
                        None
                    },
                    None => None,
                }
            } else {
                None
            },
        }
    }
}

fn make_list(start: Option<u64>, items: Vec<ListItem>) -> (r: Option<List>)
    ensures
        view_nested(r) == list_kind(start, view_list_items(items@)),
{
    match start {
        None => Some(List::Plain(items)),
        Some(n) => if n <= 0xffff_ffff {
            Some(List::Numbered(items, n as u32))
        } else {
            None
        },
    }
}

/// Reads blocks from `p` on: up to the end of the stream, or inside a block
/// quote up to its end.
fn read_blocks(ev: &Vec<Event>, p: usize, in_quote: bool) -> (r: Option<(Vec<Block>, usize)>)
    ensures
        match r {
            Some((bs, q)) => blocks_from(ev@, p as int, Seq::empty(), in_quote) == Some(
                (view_blocks(bs@), q as int),
            ),
            None => blocks_from(ev@, p as int, Seq::empty(), in_quote) is None,
        },
    decreases ev.len() - p, 1int,
{
    if p > ev.len() {
        return None;
    }
    let mut acc: Vec<Block> = Vec::new();
    let mut i: usize = p;
    proof {
        assert(view_blocks(acc@) =~= Seq::empty());
    }
    while i < ev.len()
        invariant
            p <= i <= ev.len(),
            blocks_from(ev@, p as int, Seq::empty(), in_quote) == blocks_from(
                ev@,
                i as int,
                view_blocks(acc@),
                in_quote,
            ),
        decreases ev.len() - i,
    {
        let ghost av = view_blocks(acc@);
        let closes = match &ev[i] {
            Event::End(Tag::BlockQuote) => true,
            _ => false,
        };
        if in_quote && closes {
            return Some((acc, i + 1));
        }
        match read_block(ev, i) {
            Some((b, q)) => {
                if q <= i || q > ev.len() {
                    return None;
                }
                acc.push(b);
                assert(view_blocks(acc@) =~= av.push(b.view()));
                i = q;
            },
            None => {
                return None;
            },
        }
    }
    if in_quote {
        None
    } else {
        Some((acc, i))
    }
}

/// Reads the block that begins at `p`.
fn read_block(ev: &Vec<Event>, p: usize) -> (r: Option<(Block, usize)>)
    ensures
        match r {
            Some((b, q)) => block_at(ev@, p as int) == Some((b.view(), q as int)),
            None => block_at(ev@, p as int) is None,
        },
    decreases ev.len() - p, 0int,
{
    if p >= ev.len() {
        return None;
    }
    match &ev[p] {
        Event::Start(Tag::Heading(l)) => match read_heading(ev, p + 1) {
            Some((t, q)) => Some((Block::Heading(t, *l), q)),
            None => None,
        },
        Event::Start(Tag::List(n)) => match read_list(ev, p + 1) {
            Some((items, q)) => match make_list(*n, items) {
                Some(l) => Some((Block::List(l), q)),
                None => None,
            },
            None => None,
        },
        Event::Start(Tag::Paragraph) => match read_paragraph(ev, p + 1) {
            Some((lines, q)) => Some((Block::Paragraph(lines), q)),
            None => None,
        },
        Event::Rule => Some((Block::Rule, p + 1)),
        Event::Start(Tag::BlockQuote) => match read_blocks(ev, p + 1, true) {
            Some((bs, q)) => Some((Block::BlockQuote(bs), q)),
            None => None,
        },
        Event::Start(Tag::CodeBlock(lang)) => match read_code(ev, p + 1) {
            Some((lines, q)) => Some((Block::Code(lang.clone(), lines), q)),
            None => None,
        },
        _ => None,
    }
}

/// Reads the items of a list whose start stands before `p`.
fn read_list(ev: &Vec<Event>, p: usize) -> (r: Option<(Vec<ListItem>, usize)>)
    ensures
        match r {
            Some((items, q)) => list_from(ev@, p as int, Seq::empty()) == Some(
                (view_list_items(items@), q as int),
            ),
            None => list_from(ev@, p as int, Seq::empty()) is None,
        },
    decreases ev.len() - p, 0int,
{
    if p >= ev.len() {
        return None;
    }
    let mut items: Vec<ListItem> = Vec::new();
    let mut i: usize = p;
    proof {
        assert(view_list_items(items@) =~= Seq::empty());
    }
    while i < ev.len()
        invariant
            p <= i <= ev.len(),
            list_from(ev@, p as int, Seq::empty()) == list_from(
                ev@,
                i as int,
                view_list_items(items@),
            ),
        decreases ev.len() - i,
    {
        let ghost iv = view_list_items(items@);
        match &ev[i] {
            Event::End(Tag::List(_)) => {
                return Some((items, i + 1));
            },
            Event::Start(Tag::Item) => {
                match read_item(ev, i + 1) {
                    Some((it, q)) => {
                        if q <= i || q > ev.len() {
                            return None;
                        }
                        items.push(it);
                        assert(view_list_items(items@) =~= iv.push(it.view()));
                        i = q;
                    },
                    None => {
                        return None;
                    },
                }
            },
            _ => {
                return None;
            },
        }
    }
    None
}

/// Reads a list item whose start stands before `p`.
fn read_item(ev: &Vec<Event>, p: usize) -> (r: Option<(ListItem, usize)>)
    ensures
        match r {
            Some((it, q)) => item_from(ev@, p as int, empty_item()) == Some((it.view(), q as int)),
            None => item_from(ev@, p as int, empty_item()) is None,
        },
    decreases ev.len() - p, 0int,
{
    if p >= ev.len() {
        return None;
    }
    let mut blocks: Vec<Block> = Vec::new();
    let mut lines: Vec<Text> = Vec::new();
    let mut line: Vec<TextItem> = Vec::new();
    let mut marker: Option<bool> = None;
    let mut nested: Option<List> = None;
    let mut i: usize = p;
    proof {
        assert(view_blocks(blocks@) =~= Seq::empty());
        assert(view_lines(lines@) =~= Seq::empty());
        assert(view_text_items(line@) =~= Seq::empty());
    }
    while i < ev.len()
        invariant
            p <= i <= ev.len(),
            item_from(ev@, p as int, empty_item()) == item_from(
                ev@,
                i as int,
                ItemAcc {
                    blocks: view_blocks(blocks@),
                    lines: view_lines(lines@),
                    line: view_text_items(line@),
                    marker,
                    nested: view_nested(nested),
                },
            ),
        decreases ev.len() - i,
    {
        let ghost bv = view_blocks(blocks@);
        let ghost lv = view_lines(lines@);
        let ghost tv = view_text_items(line@);
        match &ev[i] {
            Event::End(Tag::Item) => {
                if line.len() > 0 {
                    lines.push(Text { inner: line });
                    assert(view_lines(lines@) =~= lv.push(tv));
                }
                if lines.len() > 0 {
                    let ghost lv2 = view_lines(lines@);
                    blocks.push(Block::Paragraph(lines));
                    assert(view_blocks(blocks@) =~= bv.push(SpecBlock::Paragraph(lv2)));
                }
                let item = match marker {
                    Some(done) => ListItem::Task(blocks, done, nested),
                    None => infer(blocks, nested),
                };
                return Some((item, i + 1));
            },
            Event::Start(Tag::List(n)) => {
                match read_list(ev, i + 1) {
                    Some((items, q)) => {
                        match make_list(*n, items) {
                            Some(l) => {
                                if q <= i || q > ev.len() {
                                    return None;
                                }
                                nested = Some(l);
                                i = q;
                            },
                            None => {
                                return None;
                            },
                        }
                    },
                    None => {
                        return None;
                    },
                }
            },
            Event::TaskListMarker(done) => {
                marker = Some(*done);
                i = i + 1;
            },
            Event::SoftBreak | Event::HardBreak => {
                if line.len() > 0 {
                    lines.push(Text { inner: line });
                    assert(view_lines(lines@) =~= lv.push(tv));
                }
                line = Vec::new();
                assert(view_text_items(line@) =~= Seq::empty());
                i = i + 1;
            },
            Event::Start(Tag::Paragraph) => {
                match read_paragraph(ev, i + 1) {
                    Some((ls, q)) => {
                        if q <= i || q > ev.len() {
                            return None;
                        }
                        let ghost lsv = view_lines(ls@);
                        blocks.push(Block::Paragraph(ls));
                        assert(view_blocks(blocks@) =~= bv.push(SpecBlock::Paragraph(lsv)));
                        i = q;
                    },
                    None => {
                        return None;
                    },
                }
            },
            Event::Start(Tag::BlockQuote) => {
                match read_blocks(ev, i + 1, true) {
                    Some((bs, q)) => {
                        if q <= i || q > ev.len() {
                            return None;
                        }
                        let ghost bsv = view_blocks(bs@);
                        blocks.push(Block::BlockQuote(bs));
                        assert(view_blocks(blocks@) =~= bv.push(SpecBlock::BlockQuote(bsv)));
                        i = q;
                    },
                    None => {
                        return None;
                    },
                }
            },
            Event::Start(Tag::CodeBlock(lang)) => {
                match read_code(ev, i + 1) {
                    Some((ls, q)) => {
                        if q <= i || q > ev.len() {
                            return None;
                        }
                        let b = Block::Code(lang.clone(), ls);
                        blocks.push(b);
                        assert(view_blocks(blocks@) =~= bv.push(b.view()));
                        i = q;
                    },
                    None => {
                        return None;
                    },
                }
            },
            _ => {
                if !is_inline_event(&ev[i]) {
                    return None;
                }
                match read_inline(ev, i) {
                    Some((it, q)) => {
                        if q <= i || q > ev.len() {
                            return None;
                        }
                        line.push(it);
                        assert(view_text_items(line@) =~= tv.push(it.view()));
                        i = q;
                    },
                    None => {
                        return None;
                    },
                }
            },
        }
    }
    None
}

// ---- frontmatter and the whole document ----
/// The metadata that the frontmatter gives.
pub struct Front {
    pub tags: Seq<Seq<char>>,
    pub start_date: Option<Date>,
    pub due_date: Option<Date>,
}

pub open spec fn trim_all(pieces: Seq<Seq<char>>) -> Seq<Seq<char>> {
    Seq::new(pieces.len(), |i: int| trim(pieces[i]))
}

/// What one line of frontmatter changes: `tags:` then comma separated tags
/// (unless the first is empty), `start_date:` or `due_date:` then a date in the
/// date format (unless it does not parse). Other lines change nothing.
pub open spec fn front_line(f: Front, line: Seq<char>, format: Seq<char>) -> Front {
    let t = trim(line);
    if has_prefix(t, "tags:"@) {
        let tags = trim_all(split_on(t.subrange("tags:"@.len() as int, t.len() as int), ','));
        if tags.len() > 0 && tags[0].len() > 0 {
            Front { tags, ..f }
        } else {
            f
        }
    } else if has_prefix(t, "start_date:"@) {
        match parsed_date(t.subrange("start_date:"@.len() as int, t.len() as int), format) {
            Some(d) => Front { start_date: Some(d), ..f },
            None => f,
        }
    } else if has_prefix(t, "due_date:"@) {
        match parsed_date(t.subrange("due_date:"@.len() as int, t.len() as int), format) {
            Some(d) => Front { due_date: Some(d), ..f },
            None => f,
        }
    } else {
        f
    }
}

/// The frontmatter from `p` on, after its opening rule: up to a rule or the
/// end of a heading. Where another element stands in it, its position.
pub open spec fn frontmatter_from(ev: Seq<Event>, p: int, f: Front, format: Seq<char>) -> Result<
    (Front, int),
    int,
>
    decreases ev.len() - p,
{
    if p < 0 || p >= ev.len() {
        Ok((f, p))
    } else {
        match ev[p] {
            Event::Rule | Event::End(Tag::Heading(_)) => Ok((f, p + 1)),
            Event::Start(Tag::Heading(_)) | Event::SoftBreak | Event::HardBreak => frontmatter_from(
                ev,
                p + 1,
                f,
                format,
            ),
            Event::Text(t) => frontmatter_from(ev, p + 1, front_line(f, t@, format), format),
            _ => Err(p),
        }
    }
}

/// The outcome of reading a document.
pub enum SpecRead {
    Read(SpecNodo),
    /// An element stands in the frontmatter, at this position, that does not
    /// belong there
    Invalid(int),
    /// The body holds an element that documents here do not hold, or ends early
    Unhandled,
}

/// Whether a block is a level 1 heading.
pub open spec fn is_title(b: SpecBlock) -> bool {
    b matches SpecBlock::Heading(_, 1)
}

/// The text of the first level 1 heading among blocks (empty if there is
/// none), and the blocks without it.
pub open spec fn take_title(bs: Seq<SpecBlock>) -> (Seq<SpecTextItem>, Seq<SpecBlock>)
    decreases bs.len(),
{
    if bs.len() == 0 {
        (Seq::empty(), Seq::empty())
    } else if is_title(bs[0]) {
        (bs[0]->Heading_0, bs.drop_first())
    } else {
        let (t, rest) = take_title(bs.drop_first());
        (t, seq![bs[0]] + rest)
    }
}

/// Reading events into a nodo that already holds `base`: a frontmatter (an
/// opening rule first) replaces tags and dates it gives; the first level 1
/// heading of the body becomes the title (which is empty if there is none);
/// the other blocks follow the blocks of `base`.
pub open spec fn read_spec(base: SpecNodo, ev: Seq<Event>, format: Seq<char>) -> SpecRead {
    let f0 = Front { tags: base.tags, start_date: base.start_date, due_date: base.due_date };
    let fm = if ev.len() > 0 && ev[0] is Rule {
        frontmatter_from(ev, 1, f0, format)
    } else {
        Ok((f0, 0))
    };
    match fm {
        Err(k) => SpecRead::Invalid(k),
        Ok((f, p)) => match blocks_from(ev, p, Seq::empty(), false) {
            None => SpecRead::Unhandled,
            Some((bs, _)) => SpecRead::Read(
                SpecNodo {
                    tags: f.tags,
                    start_date: f.start_date,
                    due_date: f.due_date,
                    title: take_title(bs).0,
                    blocks: base.blocks + take_title(bs).1,
                },
            ),
        },
    }
}

proof fn lemma_take_title(bs: Seq<SpecBlock>, k: int)
    requires
        0 <= k <= bs.len(),
        forall|j: int| 0 <= j < k ==> !is_title(#[trigger] bs[j]),
        k < bs.len() ==> is_title(bs[k]),
    ensures
        take_title(bs) == if k < bs.len() {
            (bs[k]->Heading_0, bs.subrange(0, k) + bs.subrange(k + 1, bs.len() as int))
        } else {
            (Seq::<SpecTextItem>::empty(), bs)
        },
    decreases bs.len(),
{
    if bs.len() == 0 {
        assert(bs =~= Seq::<SpecBlock>::empty());
    } else if k == 0 {
        assert(bs.subrange(0, 0) + bs.subrange(1, bs.len() as int) =~= bs.drop_first());
    } else {
        let rest = bs.drop_first();
        assert forall|j: int| 0 <= j < k - 1 implies !is_title(#[trigger] rest[j]) by {
            assert(rest[j] == bs[j + 1]);
        }
        lemma_take_title(rest, k - 1);
        assert(!is_title(bs[0]));
        if k < bs.len() {
            assert(seq![bs[0]] + (rest.subrange(0, k - 1) + rest.subrange(k, rest.len() as int)) =~= bs.subrange(0, k)
                + bs.subrange(k + 1, bs.len() as int));
        } else {
            assert(seq![bs[0]] + rest =~= bs);
        }
    }
}

/// Takes out the first level 1 heading of the blocks, giving its text (empty
/// if there is none).
fn take_title_exec(blocks: &mut Vec<Block>) -> (r: Text)
    ensures
        (r.view(), view_blocks(final(blocks)@)) == take_title(view_blocks(old(blocks)@)),
{
    let ghost bv = view_blocks(blocks@);
    let mut k: usize = 0;
    let mut found = false;
    while k < blocks.len() && !found
        invariant
            k <= blocks.len(),
            bv == view_blocks(blocks@),
            forall|j: int| 0 <= j < k ==> !is_title(#[trigger] bv[j]),
            found ==> k < blocks.len() && is_title(bv[k as int]),
        decreases blocks.len() - k, if found { 0int } else { 1int },
    {
        assert(bv[k as int] == blocks@[k as int].view());
        let hit = match &blocks[k] {
            Block::Heading(_, 1) => true,
            _ => false,
        };
        if hit {
            found = true;
        } else {
            k = k + 1;
        }
    }
    proof {
        lemma_take_title(bv, k as int);
    }
    if k < blocks.len() {
        let ghost before = blocks@;
        let b = blocks.remove(k);
        assert(blocks@ =~= before.subrange(0, k as int) + before.subrange(k + 1, before.len() as int));
        assert(view_blocks(blocks@) =~= bv.subrange(0, k as int) + bv.subrange(k + 1, bv.len() as int));
        match b {
            Block::Heading(t, _) => t,
            _ => Text { inner: Vec::new() },
        }
    } else {
        let t = Text { inner: Vec::new() };
        assert(t.view() =~= Seq::empty());
        t
    }
}

/// Applies one line of frontmatter.
fn read_front_line(
    tags: &mut Vec<String>,
    start_date: &mut Option<Date>,
    due_date: &mut Option<Date>,
    line: &str,
    format: &str,
)
    ensures
        front_line(
            Front { tags: view_strings(old(tags)@), start_date: *old(start_date), due_date: *old(due_date) },
            line@,
            format@,
        ) == (Front { tags: view_strings(final(tags)@), start_date: *final(start_date), due_date: *final(due_date) }),
{
    let t = trim_str(line);
    let n = t.unicode_len();
    let tags_key = "tags:";
    let start_key = "start_date:";
    let due_key = "due_date:";
    if starts_with(t, tags_key) {
        let rest = t.substring_char(tags_key.unicode_len(), n);
        let pieces = split_trimmed(rest, ',');
        proof {
            lemma_split_nonempty(rest@, ',');
            assert(view_strings(pieces@) =~= trim_all(split_on(rest@, ',')));
        }
        if pieces.len() > 0 && pieces[0].as_str().unicode_len() > 0 {
            *tags = pieces;
        }
    } else if starts_with(t, start_key) {
        let rest = t.substring_char(start_key.unicode_len(), n);
        match parse_date(rest, format) {
            Some(d) => {
                *start_date = Some(d);
            },
            None => {},
        }
    } else if starts_with(t, due_key) {
        let rest = t.substring_char(due_key.unicode_len(), n);
        match parse_date(rest, format) {
            Some(d) => {
                *due_date = Some(d);
            },
            None => {},
        }
    }
}

/// Reads the events of a document into the nodo that `nodo` holds. An
/// element in the frontmatter that does not belong there is named in the
/// error's message.
pub fn read_events(nodo: NodoBuilder, ev: &Vec<Event>, date_format: &str) -> (r: Result<
    Nodo,
    ReadError,
>)
    ensures
        match r {
            Ok(n) => read_spec(nodo.view(), ev@, date_format@) == SpecRead::Read(n.view()),
            Err(ReadError::InvalidElement(m)) => exists|k: int|
                read_spec(nodo.view(), ev@, date_format@) == SpecRead::Invalid(k) && 0 <= k < ev@.len()
                    && m@ == "Invalid element in frontmatter: "@ + event_text(ev@[k]),
            Err(ReadError::Unhandled(_)) => read_spec(nodo.view(), ev@, date_format@) is Unhandled,
            Err(_) => false,
        },
{
    let ghost nv = nodo.view();
    let base = nodo.build();
    let (tags, start_date, due_date, _, blocks) = base.into_parts();
    assert(nv.tags == view_strings(tags@));
    let mut tags = tags;
    let mut start_date = start_date;
    let mut due_date = due_date;
    let mut p: usize = 0;
    let opens = ev.len() > 0 && match &ev[0] {
        Event::Rule => true,
        _ => false,
    };
    if opens {
        let ghost f0 = Front { tags: view_strings(tags@), start_date, due_date };
        assert(f0 == Front { tags: nv.tags, start_date: nv.start_date, due_date: nv.due_date });
        let mut i: usize = 1;
        let mut closed = false;
        let mut invalid = false;
        while i < ev.len() && !closed
            invariant
                1 <= i <= ev.len(),
                ev@.len() > 0,
                ev@[0] is Rule,
                f0 == (Front { tags: nv.tags, start_date: nv.start_date, due_date: nv.due_date }),
                !closed ==> frontmatter_from(ev@, 1, f0, date_format@) == frontmatter_from(
                    ev@,
                    i as int,
                    Front { tags: view_strings(tags@), start_date, due_date },
                    date_format@,
                ),
                invalid ==> closed,
                invalid ==> i < ev.len() && frontmatter_from(ev@, 1, f0, date_format@) == Err::<
                    (Front, int),
                    int,
                >(i as int),
                closed && !invalid ==> frontmatter_from(ev@, 1, f0, date_format@) == Ok::<
                    (Front, int),
                    int,
                >((Front { tags: view_strings(tags@), start_date, due_date }, i as int)),
            decreases ev.len() - i, if closed { 0int } else { 1int },
        {
            match &ev[i] {
                Event::Rule | Event::End(Tag::Heading(_)) => {
                    closed = true;
                    i = i + 1;
                },
                Event::Start(Tag::Heading(_)) | Event::SoftBreak | Event::HardBreak => {
                    i = i + 1;
                },
                Event::Text(t) => {
                    read_front_line(&mut tags, &mut start_date, &mut due_date, t.as_str(), date_format);
                    i = i + 1;
                },
                _ => {
                    invalid = true;
                    closed = true;
                },
            }
        }
        if invalid {
            assert(read_spec(nv, ev@, date_format@) == SpecRead::Invalid(i as int));
            let mut m = String::from_str("Invalid element in frontmatter: ");
            m.append(ev[i].describe().as_str());
            return Err(ReadError::InvalidElement(m));
        }
        p = i;
    }
    match read_blocks(ev, p, false) {
        Some((bs, _)) => {
            let mut bs = bs;
            let title = take_title_exec(&mut bs);
            let mut all = blocks;
            let ghost v0 = view_blocks(all@);
            let ghost v1 = view_blocks(bs@);
            all.append(&mut bs);
            assert(view_blocks(all@) =~= v0 + v1);
            Ok(Nodo::from_parts(tags, start_date, due_date, title, all))
        },
        None => Err(ReadError::Unhandled(String::from_str("Unhandled element in the body"))),
    }
}

} // verus!
