//! The canonical event encoding of a document: the events that its canonical
//! text stands for, and the proof that the builder reads them back.
use vstd::prelude::*;
use crate::events::{Event, Tag};
use crate::text::{is_ws, lead_ws, split_on, trail_ws, trim};
use crate::writer::tags_text;
use crate::nodo::{SpecBlock, SpecList, SpecListItem, SpecNodo, SpecTextItem, TextStyle};
use crate::reader::{Front, frontmatter_from, front_line, trim_all, finish_item, infer_item, list_kind, 
    ItemAcc, SpecRead, block_at, blocks_from, checkbox_items, close_line, code_from, empty_item,
    heading_from, inline_from, item_from, link_from, list_from, paragraph_from, read_spec,
    styled_from,
};

verus! {

/// An element as the model sees it.
pub enum SpecTag {
    Paragraph,
    Heading(u32),
    BlockQuote,
    CodeBlock(Seq<char>),
    List(Option<u64>),
    Item,
    Emphasis,
    Strong,
    Strikethrough,
    Link(Seq<char>),
    Other,
}

/// An event as the model sees it.
pub enum SpecEvent {
    Start(SpecTag),
    End(SpecTag),
    Text(Seq<char>),
    Code(Seq<char>),
    SoftBreak,
    HardBreak,
    Rule,
    TaskListMarker(bool),
    Other,
}

pub open spec fn view_tag(t: Tag) -> SpecTag {
    match t {
        Tag::Paragraph => SpecTag::Paragraph,
        Tag::Heading(l) => SpecTag::Heading(l),
        Tag::BlockQuote => SpecTag::BlockQuote,
        Tag::CodeBlock(s) => SpecTag::CodeBlock(s@),
        Tag::List(n) => SpecTag::List(n),
        Tag::Item => SpecTag::Item,
        Tag::Emphasis => SpecTag::Emphasis,
        Tag::Strong => SpecTag::Strong,
        Tag::Strikethrough => SpecTag::Strikethrough,
        Tag::Link(u) => SpecTag::Link(u@),
        Tag::Other => SpecTag::Other,
    }
}

pub open spec fn view_event(e: Event) -> SpecEvent {
    match e {
        Event::Start(t) => SpecEvent::Start(view_tag(t)),
        Event::End(t) => SpecEvent::End(view_tag(t)),
        Event::Text(s) => SpecEvent::Text(s@),
        Event::Code(s) => SpecEvent::Code(s@),
        Event::SoftBreak => SpecEvent::SoftBreak,
        Event::HardBreak => SpecEvent::HardBreak,
        Event::Rule => SpecEvent::Rule,
        Event::TaskListMarker(b) => SpecEvent::TaskListMarker(b),
        Event::Other => SpecEvent::Other,
    }
}

/// The events from `p` on begin with `enc`.
pub open spec fn matches_at(ev: Seq<Event>, p: int, enc: Seq<SpecEvent>) -> bool {
    0 <= p && p + enc.len() <= ev.len() && forall|k: int|
        0 <= k < enc.len() ==> view_event(#[trigger] ev[p + k]) == enc[k]
}

pub proof fn lemma_matches_split(ev: Seq<Event>, p: int, a: Seq<SpecEvent>, b: Seq<SpecEvent>)
    requires
        matches_at(ev, p, a + b),
    ensures
        matches_at(ev, p, a),
        matches_at(ev, p + a.len(), b),
{
    assert forall|k: int| 0 <= k < a.len() implies view_event(#[trigger] ev[p + k]) == a[k] by {
        assert((a + b)[k] == a[k]);
    }
    assert forall|k: int| 0 <= k < b.len() implies view_event(#[trigger] ev[p + a.len() + k]) == b[k] by {
        assert((a + b)[a.len() + k] == b[k]);
        assert(ev[p + (a.len() + k)] == ev[p + a.len() + k]);
    }
}

pub open spec fn style_tag(s: TextStyle) -> SpecTag {
    match s {
        TextStyle::Emphasis => SpecTag::Emphasis,
        TextStyle::Strong => SpecTag::Strong,
        TextStyle::Strikethrough => SpecTag::Strikethrough,
        TextStyle::Code => SpecTag::Other,
    }
}

pub open spec fn enc_inline(it: SpecTextItem) -> Seq<SpecEvent> {
    match it {
        SpecTextItem::Plain(s) => seq![SpecEvent::Text(s)],
        SpecTextItem::Styled(s, TextStyle::Code) => seq![SpecEvent::Code(s)],
        SpecTextItem::Styled(s, st) => seq![
            SpecEvent::Start(style_tag(st)),
            SpecEvent::Text(s),
            SpecEvent::End(style_tag(st)),
        ],
        SpecTextItem::Link(n, u) => seq![
            SpecEvent::Start(SpecTag::Link(u)),
            SpecEvent::Text(n),
            SpecEvent::End(SpecTag::Link(u)),
        ],
    }
}

pub open spec fn enc_line(t: Seq<SpecTextItem>) -> Seq<SpecEvent>
    decreases t.len(),
{
    if t.len() == 0 {
        Seq::empty()
    } else {
        enc_inline(t[0]) + enc_line(t.drop_first())
    }
}

pub open spec fn enc_lines(ls: Seq<Seq<SpecTextItem>>) -> Seq<SpecEvent>
    decreases ls.len(),
{
    if ls.len() == 0 {
        Seq::empty()
    } else if ls.len() == 1 {
        enc_line(ls[0])
    } else {
        enc_line(ls[0]) + seq![SpecEvent::SoftBreak] + enc_lines(ls.drop_first())
    }
}

pub open spec fn enc_code(ls: Seq<Seq<char>>) -> Seq<SpecEvent>
    decreases ls.len(),
{
    if ls.len() == 0 {
        Seq::empty()
    } else {
        seq![SpecEvent::Text(ls[0])] + enc_code(ls.drop_first())
    }
}

pub open spec fn enc_block(b: SpecBlock) -> Seq<SpecEvent>
    decreases b,
{
    match b {
        SpecBlock::Heading(t, l) => seq![SpecEvent::Start(SpecTag::Heading(l))] + enc_line(t) + seq![
            SpecEvent::End(SpecTag::Heading(l)),
        ],
        SpecBlock::List(l) => enc_list(l),
        SpecBlock::Paragraph(ls) => seq![SpecEvent::Start(SpecTag::Paragraph)] + enc_lines(ls) + seq![
            SpecEvent::End(SpecTag::Paragraph),
        ],
        SpecBlock::Rule => seq![SpecEvent::Rule],
        SpecBlock::BlockQuote(bs) => seq![SpecEvent::Start(SpecTag::BlockQuote)] + enc_blocks(bs)
            + seq![SpecEvent::End(SpecTag::BlockQuote)],
        SpecBlock::Code(lang, ls) => seq![SpecEvent::Start(SpecTag::CodeBlock(lang))] + enc_code(ls)
            + seq![SpecEvent::End(SpecTag::CodeBlock(lang))],
    }
}

pub open spec fn enc_blocks(bs: Seq<SpecBlock>) -> Seq<SpecEvent>
    decreases bs,
{
    if bs.len() == 0 {
        Seq::empty()
    } else {
        enc_block(bs[0]) + enc_blocks(bs.drop_first())
    }
}

pub open spec fn list_start(l: SpecList) -> Option<u64> {
    match l {
        SpecList::Plain(_) => None,
        SpecList::Numbered(_, k) => Some(k as u64),
    }
}

/// An item whose content is one paragraph of lines, none of them empty.
pub open spec fn single_paragraph(it: SpecListItem) -> bool {
    it.blocks().len() == 1 && it.blocks()[0] is Paragraph && it.blocks()[0]->Paragraph_0.len() > 0
}

/// A tight list: each item is a single paragraph, written without the
/// paragraph's start and end.
pub open spec fn list_tight(items: Seq<SpecListItem>) -> bool {
    forall|i: int| 0 <= i < items.len() ==> single_paragraph(#[trigger] items[i])
}

pub open spec fn enc_list(l: SpecList) -> Seq<SpecEvent>
    decreases l,
{
    match l {
        SpecList::Plain(items) => seq![SpecEvent::Start(SpecTag::List(None))] + enc_items(
            items,
            list_tight(items),
        ) + seq![SpecEvent::End(SpecTag::List(None))],
        SpecList::Numbered(items, k) => seq![SpecEvent::Start(SpecTag::List(Some(k as u64)))]
            + enc_items(items, list_tight(items)) + seq![SpecEvent::End(SpecTag::List(Some(k as u64)))],
    }
}

pub open spec fn enc_items(items: Seq<SpecListItem>, tight: bool) -> Seq<SpecEvent>
    decreases items,
{
    if items.len() == 0 {
        Seq::empty()
    } else {
        enc_item(items[0], tight) + enc_items(items.drop_first(), tight)
    }
}

/// An item's content: its one paragraph's lines in a tight list, else its blocks.
pub open spec fn enc_content(bs: Seq<SpecBlock>, tight: bool) -> Seq<SpecEvent> {
    if tight && bs.len() > 0 && bs[0] is Paragraph {
        enc_lines(bs[0]->Paragraph_0)
    } else {
        enc_blocks(bs)
    }
}

pub open spec fn enc_item(it: SpecListItem, tight: bool) -> Seq<SpecEvent>
    decreases it,
{
    match it {
        SpecListItem::Text(bs, n) => seq![SpecEvent::Start(SpecTag::Item)] + (if tight && bs.len() > 0
            && bs[0] is Paragraph {
            enc_lines(bs[0]->Paragraph_0)
        } else {
            enc_blocks(bs)
        }) + match n {
            Some(l) => enc_list(l),
            None => Seq::empty(),
        } + seq![SpecEvent::End(SpecTag::Item)],
        SpecListItem::Task(bs, done, n) => seq![
            SpecEvent::Start(SpecTag::Item),
            SpecEvent::TaskListMarker(done),
        ] + (if tight && bs.len() > 0 && bs[0] is Paragraph {
            enc_lines(bs[0]->Paragraph_0)
        } else {
            enc_blocks(bs)
        }) + match n {
            Some(l) => enc_list(l),
            None => Seq::empty(),
        } + seq![SpecEvent::End(SpecTag::Item)],
    }
}

/// The events of a document without frontmatter: its title as a level 1
/// heading, then its blocks.
pub open spec fn enc_nodo(d: SpecNodo) -> Seq<SpecEvent> {
    seq![SpecEvent::Start(SpecTag::Heading(1))] + enc_line(d.title) + seq![
        SpecEvent::End(SpecTag::Heading(1)),
    ] + enc_blocks(d.blocks)
}

// ---- what the builder can produce ----
pub open spec fn lines_ok(ls: Seq<Seq<SpecTextItem>>) -> bool {
    forall|i: int| 0 <= i < ls.len() ==> (#[trigger] ls[i]).len() > 0
}

pub open spec fn block_ok(b: SpecBlock) -> bool
    decreases b,
{
    match b {
        SpecBlock::List(l) => list_ok(l),
        SpecBlock::Paragraph(ls) => lines_ok(ls),
        SpecBlock::BlockQuote(bs) => blocks_ok(bs),
        _ => true,
    }
}

pub open spec fn blocks_ok(bs: Seq<SpecBlock>) -> bool
    decreases bs,
{
    bs.len() > 0 ==> block_ok(bs[0]) && blocks_ok(bs.drop_first())
}

pub open spec fn list_ok(l: SpecList) -> bool
    decreases l,
{
    match l {
        SpecList::Plain(items) => items_ok(items),
        SpecList::Numbered(items, _) => items_ok(items),
    }
}

pub open spec fn items_ok(items: Seq<SpecListItem>) -> bool
    decreases items,
{
    items.len() > 0 ==> item_ok(items[0]) && items_ok(items.drop_first())
}

/// An item block: a paragraph, a block quote or a code block.
pub open spec fn item_blocks_ok(bs: Seq<SpecBlock>) -> bool
    decreases bs,
{
    bs.len() > 0 ==> (bs[0] is Paragraph || bs[0] is BlockQuote || bs[0] is Code) && block_ok(bs[0])
        && item_blocks_ok(bs.drop_first())
}

/// A text item does not begin with what reads as a checkbox.
pub open spec fn no_checkbox(bs: Seq<SpecBlock>) -> bool {
    bs.len() > 0 && bs[0] is Paragraph && bs[0]->Paragraph_0.len() > 0 ==> checkbox_items(
        bs[0]->Paragraph_0[0],
    ) is None
}

pub open spec fn item_ok(it: SpecListItem) -> bool
    decreases it,
{
    match it {
        SpecListItem::Text(bs, n) => item_blocks_ok(bs) && no_checkbox(bs) && match n {
            Some(l) => list_ok(l),
            None => true,
        },
        SpecListItem::Task(bs, _, n) => item_blocks_ok(bs) && match n {
            Some(l) => list_ok(l),
            None => true,
        },
    }
}

// ---- reading the encoding back ----
proof fn lemma_at(ev: Seq<Event>, p: int, enc: Seq<SpecEvent>, k: int)
    requires
        matches_at(ev, p, enc),
        0 <= k < enc.len(),
    ensures
        view_event(ev[p + k]) == enc[k],
{
}

/// Splits a match on `a + b + c` into its three parts.
proof fn lemma_matches_three(
    ev: Seq<Event>,
    p: int,
    a: Seq<SpecEvent>,
    b: Seq<SpecEvent>,
    c: Seq<SpecEvent>,
)
    requires
        matches_at(ev, p, a + b + c),
    ensures
        matches_at(ev, p, a),
        matches_at(ev, p + a.len(), b),
        matches_at(ev, p + a.len() + b.len(), c),
{
    lemma_matches_split(ev, p, a + b, c);
    lemma_matches_split(ev, p, a, b);
}

proof fn lemma_inline(ev: Seq<Event>, p: int, it: SpecTextItem)
    requires
        matches_at(ev, p, enc_inline(it)),
    ensures
        inline_from(ev, p) == Some((it, p + enc_inline(it).len())),
        crate::reader::is_inline(ev[p]),
        !(ev[p] is End),
        !(ev[p] is SoftBreak),
{
    lemma_at(ev, p, enc_inline(it), 0);
    assert(ev[p + 0] == ev[p]);
    match it {
        SpecTextItem::Plain(s) => {},
        SpecTextItem::Styled(s, TextStyle::Code) => {},
        SpecTextItem::Styled(s, st) => {
            lemma_at(ev, p, enc_inline(it), 1);
            lemma_at(ev, p, enc_inline(it), 2);
            assert(Seq::<char>::empty() + s =~= s);
            assert(styled_from(ev, p + 2, Seq::<char>::empty() + s) == Some((it, p + 3)));
        },
        SpecTextItem::Link(n, u) => {
            lemma_at(ev, p, enc_inline(it), 1);
            lemma_at(ev, p, enc_inline(it), 2);
            assert(Seq::<char>::empty() + n =~= n);
            assert(link_from(ev, p + 2, Seq::<char>::empty() + n, u) == Some((it, p + 3)));
        },
    }
}

proof fn lemma_heading_line(ev: Seq<Event>, p: int, t: Seq<SpecTextItem>, acc: Seq<SpecTextItem>)
    requires
        matches_at(ev, p, enc_line(t)),
    ensures
        heading_from(ev, p, acc) == heading_from(ev, p + enc_line(t).len(), acc + t),
    decreases t.len(),
{
    if t.len() == 0 {
        assert(acc + t =~= acc);
    } else {
        let a = enc_inline(t[0]);
        let rest = t.drop_first();
        lemma_matches_split(ev, p, a, enc_line(rest));
        lemma_inline(ev, p, t[0]);
        lemma_heading_line(ev, p + a.len(), rest, acc.push(t[0]));
        assert(acc.push(t[0]) + rest =~= acc + t);
    }
}

proof fn lemma_paragraph_line(
    ev: Seq<Event>,
    p: int,
    t: Seq<SpecTextItem>,
    lines: Seq<Seq<SpecTextItem>>,
    line: Seq<SpecTextItem>,
)
    requires
        matches_at(ev, p, enc_line(t)),
    ensures
        paragraph_from(ev, p, lines, line) == paragraph_from(
            ev,
            p + enc_line(t).len(),
            lines,
            line + t,
        ),
    decreases t.len(),
{
    if t.len() == 0 {
        assert(line + t =~= line);
    } else {
        let a = enc_inline(t[0]);
        let rest = t.drop_first();
        lemma_matches_split(ev, p, a, enc_line(rest));
        lemma_inline(ev, p, t[0]);
        lemma_paragraph_line(ev, p + a.len(), rest, lines, line.push(t[0]));
        assert(line.push(t[0]) + rest =~= line + t);
    }
}

proof fn lemma_paragraph(ev: Seq<Event>, p: int, ls: Seq<Seq<SpecTextItem>>, lines: Seq<Seq<SpecTextItem>>)
    requires
        matches_at(ev, p, enc_lines(ls) + seq![SpecEvent::End(SpecTag::Paragraph)]),
        lines_ok(ls),
    ensures
        paragraph_from(ev, p, lines, Seq::empty()) == Some(
            (lines + ls, p + enc_lines(ls).len() + 1),
        ),
    decreases ls.len(),
{
    let end = seq![SpecEvent::End(SpecTag::Paragraph)];
    lemma_matches_split(ev, p, enc_lines(ls), end);
    let q = p + enc_lines(ls).len();
    lemma_at(ev, q, end, 0);
    assert(ev[q + 0] == ev[q]);
    if ls.len() == 0 {
        assert(lines + ls =~= lines);
    } else if ls.len() == 1 {
        lemma_paragraph_line(ev, p, ls[0], lines, Seq::empty());
        assert(Seq::<SpecTextItem>::empty() + ls[0] =~= ls[0]);
        assert(lines + ls =~= lines.push(ls[0]));
    } else {
        let rest = ls.drop_first();
        let sb = seq![SpecEvent::SoftBreak];
        assert(enc_lines(ls) + end =~= enc_line(ls[0]) + sb + (enc_lines(rest) + end));
        lemma_matches_three(ev, p, enc_line(ls[0]), sb, enc_lines(rest) + end);
        lemma_paragraph_line(ev, p, ls[0], lines, Seq::empty());
        let r = p + enc_line(ls[0]).len();
        lemma_at(ev, r, sb, 0);
        assert(ev[r + 0] == ev[r]);
        assert(Seq::<SpecTextItem>::empty() + ls[0] =~= ls[0]);
        assert forall|i: int| 0 <= i < rest.len() implies (#[trigger] rest[i]).len() > 0 by {
            assert(rest[i] == ls[i + 1]);
        }
        lemma_paragraph(ev, r + 1, rest, lines.push(ls[0]));
        assert(lines.push(ls[0]) + rest =~= lines + ls);
    }
}

proof fn lemma_code(ev: Seq<Event>, p: int, ls: Seq<Seq<char>>, acc: Seq<Seq<char>>, lang: Seq<char>)
    requires
        matches_at(ev, p, enc_code(ls) + seq![SpecEvent::End(SpecTag::CodeBlock(lang))]),
    ensures
        code_from(ev, p, acc) == Some((acc + ls, p + enc_code(ls).len() + 1)),
    decreases ls.len(),
{
    let end = seq![SpecEvent::End(SpecTag::CodeBlock(lang))];
    if ls.len() == 0 {
        lemma_at(ev, p, enc_code(ls) + end, 0);
        assert(ev[p + 0] == ev[p]);
        assert(acc + ls =~= acc);
    } else {
        let rest = ls.drop_first();
        let first = seq![SpecEvent::Text(ls[0])];
        assert(enc_code(ls) + end =~= first + (enc_code(rest) + end));
        lemma_matches_split(ev, p, first, enc_code(rest) + end);
        lemma_at(ev, p, first, 0);
        assert(ev[p + 0] == ev[p]);
        lemma_code(ev, p + 1, rest, acc.push(ls[0]), lang);
        assert(acc.push(ls[0]) + rest =~= acc + ls);
    }
}

proof fn lemma_block(ev: Seq<Event>, p: int, b: SpecBlock)
    requires
        matches_at(ev, p, enc_block(b)),
        block_ok(b),
    ensures
        enc_block(b).len() > 0,
        !(ev[p] is End),
        block_at(ev, p) == Some((b, p + enc_block(b).len())),
    decreases b,
{
    match b {
        SpecBlock::Heading(t, l) => {
            let a = seq![SpecEvent::Start(SpecTag::Heading(l))];
            let e = seq![SpecEvent::End(SpecTag::Heading(l))];
            lemma_matches_three(ev, p, a, enc_line(t), e);
            lemma_at(ev, p, a, 0);
            assert(ev[p + 0] == ev[p]);
            lemma_heading_line(ev, p + 1, t, Seq::empty());
            let q = p + 1 + enc_line(t).len();
            lemma_at(ev, q, e, 0);
            assert(ev[q + 0] == ev[q]);
            assert(Seq::<SpecTextItem>::empty() + t =~= t);
        },
        SpecBlock::List(l) => {
            lemma_list(ev, p, l);
        },
        SpecBlock::Paragraph(ls) => {
            let a = seq![SpecEvent::Start(SpecTag::Paragraph)];
            let e = seq![SpecEvent::End(SpecTag::Paragraph)];
            assert(enc_block(b) =~= a + (enc_lines(ls) + e));
            lemma_matches_split(ev, p, a, enc_lines(ls) + e);
            lemma_at(ev, p, a, 0);
            assert(ev[p + 0] == ev[p]);
            lemma_paragraph(ev, p + 1, ls, Seq::empty());
            assert(Seq::<Seq<SpecTextItem>>::empty() + ls =~= ls);
        },
        SpecBlock::Rule => {
            lemma_at(ev, p, enc_block(b), 0);
            assert(ev[p + 0] == ev[p]);
        },
        SpecBlock::BlockQuote(bs) => {
            let a = seq![SpecEvent::Start(SpecTag::BlockQuote)];
            let e = seq![SpecEvent::End(SpecTag::BlockQuote)];
            lemma_matches_three(ev, p, a, enc_blocks(bs), e);
            lemma_at(ev, p, a, 0);
            assert(ev[p + 0] == ev[p]);
            let q = p + 1 + enc_blocks(bs).len();
            lemma_at(ev, q, e, 0);
            assert(ev[q + 0] == ev[q]);
            lemma_blocks(ev, p + 1, bs, Seq::empty(), true);
            assert(Seq::<SpecBlock>::empty() + bs =~= bs);
        },
        SpecBlock::Code(lang, ls) => {
            let a = seq![SpecEvent::Start(SpecTag::CodeBlock(lang))];
            let e = seq![SpecEvent::End(SpecTag::CodeBlock(lang))];
            assert(enc_block(b) =~= a + (enc_code(ls) + e));
            lemma_matches_split(ev, p, a, enc_code(ls) + e);
            lemma_at(ev, p, a, 0);
            assert(ev[p + 0] == ev[p]);
            lemma_code(ev, p + 1, ls, Seq::empty(), lang);
            assert(Seq::<Seq<char>>::empty() + ls =~= ls);
        },
    }
}

proof fn lemma_blocks(ev: Seq<Event>, p: int, bs: Seq<SpecBlock>, acc: Seq<SpecBlock>, in_quote: bool)
    requires
        matches_at(ev, p, enc_blocks(bs)),
        blocks_ok(bs),
        in_quote ==> p + enc_blocks(bs).len() < ev.len() && (ev[p + enc_blocks(bs).len()] matches Event::End(
            Tag::BlockQuote,
        )),
        !in_quote ==> p + enc_blocks(bs).len() == ev.len(),
    ensures
        blocks_from(ev, p, acc, in_quote) == Some(
            (
                acc + bs,
                if in_quote {
                    p + enc_blocks(bs).len() + 1
                } else {
                    p + enc_blocks(bs).len()
                },
            ),
        ),
    decreases bs,
{
    if bs.len() == 0 {
        assert(acc + bs =~= acc);
    } else {
        let rest = bs.drop_first();
        lemma_matches_split(ev, p, enc_block(bs[0]), enc_blocks(rest));
        lemma_block(ev, p, bs[0]);
        let q = p + enc_block(bs[0]).len();
        lemma_blocks(ev, q, rest, acc.push(bs[0]), in_quote);
        assert(acc.push(bs[0]) + rest =~= acc + bs);
    }
}

proof fn lemma_list(ev: Seq<Event>, p: int, l: SpecList)
    requires
        matches_at(ev, p, enc_list(l)),
        list_ok(l),
    ensures
        enc_list(l).len() > 0,
        ev[p] == Event::Start(Tag::List(list_start(l))),
        list_from(ev, p + 1, Seq::empty()) == Some((l.items(), p + enc_list(l).len())),
        list_kind(list_start(l), l.items()) == Some(l),
        block_at(ev, p) == Some((SpecBlock::List(l), p + enc_list(l).len())),
    decreases l,
{
    let n = list_start(l);
    let a = seq![SpecEvent::Start(SpecTag::List(n))];
    let e = seq![SpecEvent::End(SpecTag::List(n))];
    let items = l.items();
    let tight = list_tight(items);
    assert(enc_list(l) =~= a + (enc_items(items, tight) + e));
    lemma_matches_split(ev, p, a, enc_items(items, tight) + e);
    lemma_at(ev, p, a, 0);
    assert(ev[p + 0] == ev[p]);
    match l {
        SpecList::Plain(its) => {
            lemma_items(ev, p + 1, its, Seq::empty(), n, tight);
        },
        SpecList::Numbered(its, k) => {
            lemma_items(ev, p + 1, its, Seq::empty(), n, tight);
        },
    }
    assert(Seq::<SpecListItem>::empty() + items =~= items);
}

proof fn lemma_items(
    ev: Seq<Event>,
    p: int,
    items: Seq<SpecListItem>,
    acc: Seq<SpecListItem>,
    n: Option<u64>,
    tight: bool,
)
    requires
        matches_at(ev, p, enc_items(items, tight) + seq![SpecEvent::End(SpecTag::List(n))]),
        items_ok(items),
        tight ==> list_tight(items),
    ensures
        list_from(ev, p, acc) == Some((acc + items, p + enc_items(items, tight).len() + 1)),
    decreases items,
{
    let e = seq![SpecEvent::End(SpecTag::List(n))];
    if items.len() == 0 {
        lemma_at(ev, p, enc_items(items, tight) + e, 0);
        assert(ev[p + 0] == ev[p]);
        assert(acc + items =~= acc);
    } else {
        let rest = items.drop_first();
        assert(enc_items(items, tight) + e =~= enc_item(items[0], tight) + (enc_items(rest, tight) + e));
        lemma_matches_split(ev, p, enc_item(items[0], tight), enc_items(rest, tight) + e);
        assert(tight ==> single_paragraph(items[0]));
        assert(tight ==> list_tight(rest)) by {
            if tight {
                assert forall|i: int| 0 <= i < rest.len() implies single_paragraph(#[trigger] rest[i]) by {
                    assert(rest[i] == items[i + 1]);
                }
            }
        }
        lemma_item(ev, p, items[0], tight);
        let q = p + enc_item(items[0], tight).len();
        lemma_items(ev, q, rest, acc.push(items[0]), n, tight);
        assert(acc.push(items[0]) + rest =~= acc + items);
    }
}

pub open spec fn nested_enc(n: Option<SpecList>) -> Seq<SpecEvent> {
    match n {
        Some(l) => enc_list(l),
        None => Seq::empty(),
    }
}

/// After the blocks of an item, its nested list and its end.
proof fn lemma_item_tail(ev: Seq<Event>, p: int, n: Option<SpecList>, acc: ItemAcc)
    requires
        matches_at(ev, p, nested_enc(n) + seq![SpecEvent::End(SpecTag::Item)]),
        acc.nested is None,
        n matches Some(l) ==> list_ok(l),
    ensures
        item_from(ev, p, acc) == Some(
            (finish_item(ItemAcc { nested: n, ..acc }), p + nested_enc(n).len() + 1),
        ),
    decreases n,
{
    let e = seq![SpecEvent::End(SpecTag::Item)];
    lemma_matches_split(ev, p, nested_enc(n), e);
    let q = p + nested_enc(n).len();
    lemma_at(ev, q, e, 0);
    assert(ev[q + 0] == ev[q]);
    match n {
        Some(l) => {
            lemma_list(ev, p, l);
            let acc2 = ItemAcc { nested: Some(l), ..acc };
            assert(acc2 == ItemAcc { nested: n, ..acc });
            assert(item_from(ev, q, acc2) == Some((finish_item(acc2), q + 1)));
        },
        None => {
            assert(ItemAcc { nested: n, ..acc } == acc);
        },
    }
}

proof fn lemma_item_blocks(ev: Seq<Event>, p: int, bs: Seq<SpecBlock>, acc: ItemAcc)
    requires
        matches_at(ev, p, enc_blocks(bs)),
        item_blocks_ok(bs),
    ensures
        item_from(ev, p, acc) == item_from(
            ev,
            p + enc_blocks(bs).len(),
            ItemAcc { blocks: acc.blocks + bs, ..acc },
        ),
    decreases bs,
{
    if bs.len() == 0 {
        assert(acc.blocks + bs =~= acc.blocks);
        assert(ItemAcc { blocks: acc.blocks + bs, ..acc } == acc);
    } else {
        let b = bs[0];
        let rest = bs.drop_first();
        assert(block_ok(b));
        assert(item_blocks_ok(rest));
        lemma_matches_split(ev, p, enc_block(b), enc_blocks(rest));
        lemma_block(ev, p, b);
        let q = p + enc_block(b).len();
        lemma_at(ev, p, enc_block(b), 0);
        assert(ev[p + 0] == ev[p]);
        match b {
            SpecBlock::Paragraph(ls) => {
                let a = seq![SpecEvent::Start(SpecTag::Paragraph)];
                let e = seq![SpecEvent::End(SpecTag::Paragraph)];
                assert(enc_block(b) =~= a + (enc_lines(ls) + e));
                lemma_matches_split(ev, p, a, enc_lines(ls) + e);
                assert(lines_ok(ls));
                lemma_paragraph(ev, p + 1, ls, Seq::empty());
                assert(Seq::<Seq<SpecTextItem>>::empty() + ls =~= ls);
            },
            SpecBlock::BlockQuote(bs2) => {
                let a = seq![SpecEvent::Start(SpecTag::BlockQuote)];
                let e = seq![SpecEvent::End(SpecTag::BlockQuote)];
                assert(blocks_ok(bs2));
                lemma_matches_three(ev, p, a, enc_blocks(bs2), e);
                let r = p + 1 + enc_blocks(bs2).len();
                lemma_at(ev, r, e, 0);
                assert(ev[r + 0] == ev[r]);
                assert(decreases_to!(bs => b));
                lemma_blocks(ev, p + 1, bs2, Seq::empty(), true);
                assert(Seq::<SpecBlock>::empty() + bs2 =~= bs2);
            },
            SpecBlock::Code(lang, ls) => {
                let a = seq![SpecEvent::Start(SpecTag::CodeBlock(lang))];
                let e = seq![SpecEvent::End(SpecTag::CodeBlock(lang))];
                assert(enc_block(b) =~= a + (enc_code(ls) + e));
                lemma_matches_split(ev, p, a, enc_code(ls) + e);
                lemma_code(ev, p + 1, ls, Seq::empty(), lang);
                assert(Seq::<Seq<char>>::empty() + ls =~= ls);
            },
            _ => {},
        }
        let acc1 = ItemAcc { blocks: acc.blocks.push(b), ..acc };
        lemma_item_blocks(ev, q, rest, acc1);
        assert(acc1.blocks + rest =~= acc.blocks + bs);
        assert(ItemAcc { blocks: acc1.blocks + rest, ..acc1 } == ItemAcc {
            blocks: acc.blocks + bs,
            ..acc
        });
    }
}

proof fn lemma_item_line(ev: Seq<Event>, p: int, t: Seq<SpecTextItem>, acc: ItemAcc)
    requires
        matches_at(ev, p, enc_line(t)),
    ensures
        item_from(ev, p, acc) == item_from(
            ev,
            p + enc_line(t).len(),
            ItemAcc { line: acc.line + t, ..acc },
        ),
    decreases t.len(),
{
    if t.len() == 0 {
        assert(acc.line + t =~= acc.line);
        assert(ItemAcc { line: acc.line + t, ..acc } == acc);
    } else {
        let a = enc_inline(t[0]);
        let rest = t.drop_first();
        lemma_matches_split(ev, p, a, enc_line(rest));
        lemma_inline(ev, p, t[0]);
        let acc1 = ItemAcc { line: acc.line.push(t[0]), ..acc };
        lemma_item_line(ev, p + a.len(), rest, acc1);
        assert(acc1.line + rest =~= acc.line + t);
        assert(ItemAcc { line: acc1.line + rest, ..acc1 } == ItemAcc { line: acc.line + t, ..acc });
    }
}

proof fn lemma_item_lines(ev: Seq<Event>, p: int, ls: Seq<Seq<SpecTextItem>>, acc: ItemAcc)
    requires
        matches_at(ev, p, enc_lines(ls)),
        lines_ok(ls),
        ls.len() > 0,
        acc.line.len() == 0,
    ensures
        item_from(ev, p, acc) == item_from(
            ev,
            p + enc_lines(ls).len(),
            ItemAcc { lines: acc.lines + ls.drop_last(), line: ls.last(), ..acc },
        ),
    decreases ls.len(),
{
    assert(acc.line =~= Seq::<SpecTextItem>::empty());
    assert(Seq::<SpecTextItem>::empty() + ls[0] =~= ls[0]);
    if ls.len() == 1 {
        lemma_item_line(ev, p, ls[0], acc);
        assert(ls.drop_last() =~= Seq::<Seq<SpecTextItem>>::empty());
        assert(acc.lines + ls.drop_last() =~= acc.lines);
    } else {
        let rest = ls.drop_first();
        let sb = seq![SpecEvent::SoftBreak];
        assert(enc_lines(ls) =~= enc_line(ls[0]) + sb + enc_lines(rest));
        lemma_matches_three(ev, p, enc_line(ls[0]), sb, enc_lines(rest));
        lemma_item_line(ev, p, ls[0], acc);
        let r = p + enc_line(ls[0]).len();
        lemma_at(ev, r, sb, 0);
        assert(ev[r + 0] == ev[r]);
        let acc1 = ItemAcc { line: acc.line + ls[0], ..acc };
        let acc2 = ItemAcc { lines: close_line(acc1.lines, acc1.line), line: Seq::empty(), ..acc1 };
        assert(item_from(ev, r, acc1) == item_from(ev, r + 1, acc2));
        assert(close_line(acc1.lines, acc1.line) == acc.lines.push(ls[0]));
        assert forall|i: int| 0 <= i < rest.len() implies (#[trigger] rest[i]).len() > 0 by {
            assert(rest[i] == ls[i + 1]);
        }
        lemma_item_lines(ev, r + 1, rest, acc2);
        assert(acc.lines.push(ls[0]) + rest.drop_last() =~= acc.lines + ls.drop_last());
        assert(rest.last() == ls.last());
        assert(ItemAcc { lines: acc2.lines + rest.drop_last(), line: rest.last(), ..acc2 } == ItemAcc {
            lines: acc.lines + ls.drop_last(),
            line: ls.last(),
            ..acc
        });
    }
}

#[verifier::rlimit(50)]
proof fn lemma_item(ev: Seq<Event>, p: int, it: SpecListItem, tight: bool)
    requires
        matches_at(ev, p, enc_item(it, tight)),
        item_ok(it),
        tight ==> single_paragraph(it),
    ensures
        enc_item(it, tight).len() > 0,
        ev[p] == Event::Start(Tag::Item),
        item_from(ev, p + 1, empty_item()) == Some((it, p + enc_item(it, tight).len())),
    decreases it,
{
    let e = seq![SpecEvent::End(SpecTag::Item)];
    let (bs, n, a, acc0) = match it {
        SpecListItem::Text(bs, n) => (bs, n, seq![SpecEvent::Start(SpecTag::Item)], empty_item()),
        SpecListItem::Task(bs, done, n) => (
            bs,
            n,
            seq![SpecEvent::Start(SpecTag::Item), SpecEvent::TaskListMarker(done)],
            ItemAcc { marker: Some(done), ..empty_item() },
        ),
    };
    let pc = p + a.len();
    let tail = nested_enc(n) + e;
    assert(enc_item(it, tight) =~= a + enc_content(bs, tight) + tail);
    lemma_matches_three(ev, p, a, enc_content(bs, tight), tail);
    lemma_at(ev, p, a, 0);
    assert(ev[p + 0] == ev[p]);
    if it is Task {
        lemma_at(ev, p, a, 1);
        assert(item_from(ev, p + 1, empty_item()) == item_from(ev, p + 2, acc0));
    }
    let q = pc + enc_content(bs, tight).len();
    assert(n matches Some(l) ==> list_ok(l));
    assert(item_blocks_ok(bs));
    if tight {
        let ls = bs[0]->Paragraph_0;
        assert(block_ok(bs[0]));
        assert(lines_ok(ls));
        assert(acc0.line =~= Seq::<SpecTextItem>::empty());
        lemma_item_lines(ev, pc, ls, acc0);
        let acc1 = ItemAcc { lines: acc0.lines + ls.drop_last(), line: ls.last(), ..acc0 };
        lemma_item_tail(ev, q, n, acc1);
        assert(ls[ls.len() - 1].len() > 0);
        assert(acc0.lines + ls.drop_last() =~= ls.drop_last());
        assert(ls.drop_last().push(ls.last()) =~= ls);
        assert(close_line(acc1.lines, acc1.line) =~= ls);
        assert(acc0.blocks.push(SpecBlock::Paragraph(ls)) =~= bs);
    } else {
        lemma_item_blocks(ev, pc, bs, acc0);
        let acc1 = ItemAcc { blocks: acc0.blocks + bs, ..acc0 };
        assert(acc0.blocks + bs =~= bs);
        lemma_item_tail(ev, q, n, acc1);
        assert(close_line(acc1.lines, acc1.line) =~= Seq::<Seq<SpecTextItem>>::empty());
    }
    if it is Text {
        assert(infer_item(bs, n) == it);
    }
}

/// A document's encoding after its frontmatter reads back as its title
/// heading followed by its blocks, up to the end of the events.
pub proof fn lemma_canonical_parts(ev: Seq<Event>, p0: int, d: SpecNodo)
    requires
        matches_at(ev, p0, enc_nodo(d)),
        ev.len() == p0 + enc_nodo(d).len(),
        blocks_ok(d.blocks),
    ensures
        blocks_from(ev, p0, Seq::empty(), false) == Some(
            (seq![SpecBlock::Heading(d.title, 1)] + d.blocks, ev.len() as int),
        ),
        ev[p0] == Event::Start(Tag::Heading(1)),
{
    let all = seq![SpecBlock::Heading(d.title, 1)] + d.blocks;
    assert(all.drop_first() =~= d.blocks);
    assert(all[0] == SpecBlock::Heading(d.title, 1));
    assert(enc_blocks(all) == enc_block(all[0]) + enc_blocks(all.drop_first()));
    assert(enc_block(all[0]) == seq![SpecEvent::Start(SpecTag::Heading(1))] + enc_line(d.title)
        + seq![SpecEvent::End(SpecTag::Heading(1))]);
    assert(enc_blocks(all) =~= enc_nodo(d));
    assert(block_ok(all[0]));
    assert(blocks_ok(all));
    lemma_blocks(ev, p0, all, Seq::empty(), false);
    assert(Seq::<SpecBlock>::empty() + all =~= all);
    lemma_at(ev, p0, enc_nodo(d), 0);
    assert(ev[p0 + 0] == ev[p0]);
}

// ---- tags ----
/// A tag that reads back from the frontmatter: not empty, no white space at
/// either end, no comma.
pub open spec fn tag_ok(t: Seq<char>) -> bool {
    t.len() > 0 && !is_ws(t[0]) && !is_ws(t.last()) && forall|i: int| 0 <= i < t.len() ==> #[trigger] t[i] != ','
}

pub open spec fn tags_ok(tags: Seq<Seq<char>>) -> bool {
    forall|i: int| 0 <= i < tags.len() ==> tag_ok(#[trigger] tags[i])
}

proof fn lemma_split_concat(x: Seq<char>, y: Seq<char>, c: char)
    ensures
        split_on(x + seq![c] + y, c) == split_on(x, c) + split_on(y, c),
    decreases y.len(),
{
    let xc = x + seq![c];
    if y.len() == 0 {
        assert(xc + y =~= xc);
        assert(xc.drop_last() =~= x);
        assert(split_on(x, c) + split_on(y, c) =~= split_on(x, c).push(Seq::empty()));
    } else {
        let y0 = y.drop_last();
        lemma_split_concat(x, y0, c);
        assert((xc + y).drop_last() =~= xc + y0);
        assert((xc + y).last() == y.last());
        crate::text::lemma_split_nonempty(y0, c);
        let a = split_on(x, c);
        let b = split_on(y0, c);
        if y.last() == c {
            assert(a + b.push(Seq::empty()) =~= (a + b).push(Seq::empty()));
        } else {
            assert(a + b.update(b.len() - 1, b.last().push(y.last())) =~= (a + b).update(
                (a + b).len() - 1,
                (a + b).last().push(y.last()),
            ));
        }
    }
}

proof fn lemma_split_none(x: Seq<char>, c: char)
    requires
        forall|i: int| 0 <= i < x.len() ==> #[trigger] x[i] != c,
    ensures
        split_on(x, c) == seq![x],
    decreases x.len(),
{
    if x.len() == 0 {
        assert(x =~= Seq::<char>::empty());
    } else {
        let x0 = x.drop_last();
        assert forall|i: int| 0 <= i < x0.len() implies #[trigger] x0[i] != c by {
            assert(x0[i] == x[i]);
        }
        lemma_split_none(x0, c);
        assert(x[x.len() - 1] != c);
        assert(x0.push(x.last()) =~= x);
        assert(seq![x0].update(0, x0.push(x.last())) =~= seq![x]);
    }
}

proof fn lemma_trim_spaced(t: Seq<char>)
    requires
        tag_ok(t),
    ensures
        trim(seq![' '] + t) == t,
{
    let s = seq![' '] + t;
    assert(is_ws(' '));
    assert(s.drop_first() =~= t);
    assert(lead_ws(t) == 0);
    assert(lead_ws(s) == 1);
    assert(s.subrange(1, s.len() as int) =~= t);
    assert(trail_ws(t) == 0);
    assert(t.subrange(0, t.len() as int) =~= t);
}

/// The tags as the frontmatter line spells them, each after a space.
proof fn lemma_split_tags(tags: Seq<Seq<char>>)
    requires
        tags.len() > 0,
        tags_ok(tags),
    ensures
        split_on(seq![' '] + tags_text(tags), ',') == Seq::new(tags.len(), |i: int| seq![' '] + tags[i]),
    decreases tags.len(),
{
    reveal_strlit(", ");
    let last = tags.last();
    assert(tag_ok(tags[tags.len() - 1]));
    assert forall|i: int| 0 <= i < (seq![' '] + last).len() implies #[trigger] (seq![' '] + last)[i] != ',' by {
        if i > 0 {
            assert((seq![' '] + last)[i] == last[i - 1]);
        }
    }
    lemma_split_none(seq![' '] + last, ',');
    if tags.len() == 1 {
        assert(Seq::new(tags.len(), |i: int| seq![' '] + tags[i]) =~= seq![seq![' '] + tags[0]]);
    } else {
        let init = tags.drop_last();
        assert forall|i: int| 0 <= i < init.len() implies tag_ok(#[trigger] init[i]) by {
            assert(init[i] == tags[i]);
        }
        lemma_split_tags(init);
        assert(", "@ =~= seq![',', ' ']);
        assert(seq![' '] + tags_text(tags) =~= (seq![' '] + tags_text(init)) + seq![','] + (seq![' ']
            + last));
        lemma_split_concat(seq![' '] + tags_text(init), seq![' '] + last, ',');
        assert(Seq::new(init.len(), |i: int| seq![' '] + init[i]) + seq![seq![' '] + last] =~= Seq::new(
            tags.len(),
            |i: int| seq![' '] + tags[i],
        ));
    }
}

/// The events of a frontmatter that holds tags: a rule, then the tags line as
/// a level 2 heading (the rule that closes it underlines it).
pub open spec fn enc_front(tags: Seq<Seq<char>>) -> Seq<SpecEvent> {
    if tags.len() == 0 {
        Seq::empty()
    } else {
        seq![
            SpecEvent::Rule,
            SpecEvent::Start(SpecTag::Heading(2)),
            SpecEvent::Text("tags: "@ + tags_text(tags)),
            SpecEvent::End(SpecTag::Heading(2)),
        ]
    }
}

/// The events of a document without dates: its frontmatter, its title as a
/// level 1 heading, then its blocks.
pub open spec fn enc_document(d: SpecNodo) -> Seq<SpecEvent> {
    enc_front(d.tags) + enc_nodo(d)
}

proof fn lemma_tags_text_ends(tags: Seq<Seq<char>>)
    requires
        tags.len() > 0,
        tags_ok(tags),
    ensures
        tags_text(tags).len() > 0,
        tags_text(tags).last() == tags.last().last(),
{
    assert(tag_ok(tags[tags.len() - 1]));
}

/// The tags line reads back as the tags.
pub proof fn lemma_front_line(tags: Seq<Seq<char>>, format: Seq<char>)
    requires
        tags.len() > 0,
        tags_ok(tags),
    ensures
        front_line(
            Front { tags: Seq::empty(), start_date: None, due_date: None },
            "tags: "@ + tags_text(tags),
            format,
        ) == (Front { tags, start_date: None, due_date: None }),
{
    reveal_strlit("tags: ");
    reveal_strlit("tags:");
    let line = "tags: "@ + tags_text(tags);
    lemma_tags_text_ends(tags);
    assert(line[0] == 't');
    assert(!is_ws(line[0]));
    assert(lead_ws(line) == 0);
    assert(line.last() == tags_text(tags).last());
    assert(trail_ws(line) == 0);
    assert(line.subrange(0, line.len() as int) =~= line);
    assert(trim(line) == line);
    assert(line.subrange(0, "tags:"@.len() as int) =~= "tags:"@);
    let rest = line.subrange("tags:"@.len() as int, line.len() as int);
    assert(rest =~= seq![' '] + tags_text(tags));
    lemma_split_tags(tags);
    assert forall|i: int| 0 <= i < tags.len() implies trim(seq![' '] + tags[i]) == tags[i] by {
        lemma_trim_spaced(tags[i]);
    }
    assert(trim_all(split_on(rest, ',')) =~= tags);
    assert(tag_ok(tags[0]));
}

/// A frontmatter of tags reads back, up to the event after it.
pub proof fn lemma_front(ev: Seq<Event>, tags: Seq<Seq<char>>, format: Seq<char>)
    requires
        tags.len() > 0,
        tags_ok(tags),
        matches_at(ev, 0, enc_front(tags)),
    ensures
        ev[0] is Rule,
        frontmatter_from(ev, 1, Front { tags: Seq::empty(), start_date: None, due_date: None }, format)
            == Ok::<(Front, int), int>((Front { tags, start_date: None, due_date: None }, 4int)),
{
    let enc = enc_front(tags);
    lemma_at(ev, 0, enc, 0);
    lemma_at(ev, 0, enc, 1);
    lemma_at(ev, 0, enc, 2);
    lemma_at(ev, 0, enc, 3);
    assert(ev[0int + 0int] == ev[0int]);
    let f0 = Front { tags: Seq::empty(), start_date: None, due_date: None };
    let line = "tags: "@ + tags_text(tags);
    lemma_front_line(tags, format);
    let f = front_line(f0, line, format);
    assert(frontmatter_from(ev, 3, f, format) == Ok::<(Front, int), int>((f, 4int)));
    assert(frontmatter_from(ev, 2, f0, format) == frontmatter_from(ev, 3, f, format));
    assert(frontmatter_from(ev, 1, f0, format) == frontmatter_from(ev, 2, f0, format));
}

} // verus!
