//! Properties that hold across the builder, the writer and the transforms.
use vstd::prelude::*;
use crate::events::{Event, Tag};
use crate::nodo::{SpecBlock, SpecList, SpecListItem, SpecNodo, SpecTextItem};
use crate::reader::{SpecRead, infer_item, is_title, read_spec, take_title};
use crate::events::markdown_events_of;
use crate::writer::nodo_text;
use crate::canonical::{blocks_ok, enc_document, enc_front, enc_nodo, lemma_canonical_parts, lemma_front, lemma_matches_split, matches_at, tags_ok, view_event};
use crate::text::{trim, trim_start};
use crate::show::{item_counts, trimmed, trimmed_item};

verus! {

/// A document whose first event opens a heading has no frontmatter: reading it
/// into an empty nodo never reports an invalid frontmatter, and whatever it
/// reads has no tags and no dates.
pub proof fn lemma_no_frontmatter(ev: Seq<Event>, format: Seq<char>)
    requires
        ev.len() > 0,
        ev[0] matches Event::Start(Tag::Heading(_)),
    ensures
        !(read_spec(empty_nodo(), ev, format) is Invalid),
        read_spec(empty_nodo(), ev, format) matches SpecRead::Read(n) ==> n.tags.len() == 0
            && n.start_date is None && n.due_date is None,
{
}

pub open spec fn empty_nodo() -> SpecNodo {
    SpecNodo {
        tags: Seq::empty(),
        start_date: None,
        due_date: None,
        title: Seq::empty(),
        blocks: Seq::empty(),
    }
}

/// A checkbox written as three plain runs, `[`, a mark (`x`, `X` or only white
/// space) and `]`, with any white space inside and around them, makes the item
/// the task that the canonical form gives: ticked exactly when the mark is not
/// blank, its text the run that follows with its leading white space removed.
pub proof fn lemma_checkbox_normalization(
    open: Seq<char>,
    mark: Seq<char>,
    close: Seq<char>,
    text: Seq<char>,
    rest: Seq<SpecTextItem>,
    more_lines: Seq<Seq<SpecTextItem>>,
    more_blocks: Seq<SpecBlock>,
    nested: Option<SpecList>,
)
    requires
        trim(open) == seq!['['],
        trim(close) == seq![']'],
        trim(mark) == seq!['x'] || trim(mark) == seq!['X'] || trim(mark).len() == 0,
    ensures
        infer_item(
            seq![
                SpecBlock::Paragraph(
                    seq![
                        seq![
                            SpecTextItem::Plain(open),
                            SpecTextItem::Plain(mark),
                            SpecTextItem::Plain(close),
                            SpecTextItem::Plain(text),
                        ] + rest,
                    ] + more_lines,
                ),
            ] + more_blocks,
            nested,
        ) == SpecListItem::Task(
            seq![
                SpecBlock::Paragraph(
                    seq![seq![SpecTextItem::Plain(trim_start(text))] + rest] + more_lines,
                ),
            ] + more_blocks,
            trim(mark).len() != 0,
            nested,
        ),
{
    let line = seq![
        SpecTextItem::Plain(open),
        SpecTextItem::Plain(mark),
        SpecTextItem::Plain(close),
        SpecTextItem::Plain(text),
    ] + rest;
    let lines = seq![line] + more_lines;
    let blocks = seq![SpecBlock::Paragraph(lines)] + more_blocks;
    let new_line = seq![SpecTextItem::Plain(trim_start(text))] + rest;
    assert(trim(mark) != seq![']']) by {
        if trim(mark) == seq![']'] {
            assert(trim(mark)[0] == ']');
        }
    }
    assert(line.subrange(3, line.len() as int) =~= seq![SpecTextItem::Plain(text)] + rest);
    assert(crate::reader::strip_front(line.subrange(3, line.len() as int)) =~= new_line);
    assert(blocks[0] == SpecBlock::Paragraph(lines));
    assert(lines[0] == line);
    assert(lines.update(0, new_line) =~= seq![new_line] + more_lines);
    assert(blocks.update(0, SpecBlock::Paragraph(seq![new_line] + more_lines)) =~= seq![
        SpecBlock::Paragraph(seq![new_line] + more_lines),
    ] + more_blocks);
}

/// An empty checkbox written as two plain runs, `[` and `]`, with any white
/// space around them, makes the item an open task whose text is the run that
/// follows with its leading white space removed.
pub proof fn lemma_empty_checkbox_normalization(
    open: Seq<char>,
    close: Seq<char>,
    text: Seq<char>,
    rest: Seq<SpecTextItem>,
    more_lines: Seq<Seq<SpecTextItem>>,
    more_blocks: Seq<SpecBlock>,
    nested: Option<SpecList>,
)
    requires
        trim(open) == seq!['['],
        trim(close) == seq![']'],
    ensures
        infer_item(
            seq![
                SpecBlock::Paragraph(
                    seq![
                        seq![
                            SpecTextItem::Plain(open),
                            SpecTextItem::Plain(close),
                            SpecTextItem::Plain(text),
                        ] + rest,
                    ] + more_lines,
                ),
            ] + more_blocks,
            nested,
        ) == SpecListItem::Task(
            seq![
                SpecBlock::Paragraph(
                    seq![seq![SpecTextItem::Plain(trim_start(text))] + rest] + more_lines,
                ),
            ] + more_blocks,
            false,
            nested,
        ),
{
    let line = seq![
        SpecTextItem::Plain(open),
        SpecTextItem::Plain(close),
        SpecTextItem::Plain(text),
    ] + rest;
    let lines = seq![line] + more_lines;
    let blocks = seq![SpecBlock::Paragraph(lines)] + more_blocks;
    let new_line = seq![SpecTextItem::Plain(trim_start(text))] + rest;
    assert(line.subrange(2, line.len() as int) =~= seq![SpecTextItem::Plain(text)] + rest);
    assert(crate::reader::strip_front(line.subrange(2, line.len() as int)) =~= new_line);
    assert(blocks[0] == SpecBlock::Paragraph(lines));
    assert(lines[0] == line);
    assert(lines.update(0, new_line) =~= seq![new_line] + more_lines);
    assert(blocks.update(0, SpecBlock::Paragraph(seq![new_line] + more_lines)) =~= seq![
        SpecBlock::Paragraph(seq![new_line] + more_lines),
    ] + more_blocks);
}

/// The number of list levels: one for the list, plus its deepest nested list.
pub open spec fn list_depth(l: SpecList) -> nat
    decreases l,
{
    match l {
        SpecList::Plain(items) => 1 + items_depth(items),
        SpecList::Numbered(items, _) => 1 + items_depth(items),
    }
}

pub open spec fn items_depth(items: Seq<SpecListItem>) -> nat
    decreases items,
{
    if items.len() == 0 {
        0
    } else {
        let a = items_depth(items.drop_last());
        let b = item_depth(items.last());
        if a >= b {
            a
        } else {
            b
        }
    }
}

pub open spec fn item_depth(it: SpecListItem) -> nat
    decreases it,
{
    match it {
        SpecListItem::Text(_, Some(l)) => list_depth(l),
        SpecListItem::Task(_, _, Some(l)) => list_depth(l),
        _ => 0,
    }
}

proof fn lemma_items_depth_bound(items: Seq<SpecListItem>, k: nat)
    ensures
        (items_depth(items) <= k) == (forall|i: int|
            0 <= i < items.len() ==> item_depth(#[trigger] items[i]) <= k),
    decreases items.len(),
{
    if items.len() > 0 {
        let init = items.drop_last();
        lemma_items_depth_bound(init, k);
        assert forall|i: int| 0 <= i < init.len() implies init[i] == items[i] by {}
        if forall|i: int| 0 <= i < items.len() ==> item_depth(#[trigger] items[i]) <= k {
            assert(item_depth(items[items.len() - 1]) <= k);
            assert forall|i: int| 0 <= i < init.len() implies item_depth(#[trigger] init[i]) <= k by {
                assert(init[i] == items[i]);
            }
        }
        if items_depth(items) <= k {
            assert forall|i: int| 0 <= i < items.len() implies item_depth(#[trigger] items[i]) <= k by {
                if i < init.len() {
                    assert(init[i] == items[i]);
                }
            }
        }
    }
}

/// Trimming at depth 0 leaves every item of the list, with its blocks and
/// completion, and no nested list at all.
pub proof fn lemma_trim_zero(l: SpecList)
    ensures
        trimmed(l, 0).items().len() == l.items().len(),
        forall|i: int|
            0 <= i < l.items().len() ==> (#[trigger] trimmed(l, 0).items()[i]) == l.items()[i].with_nested(
                None,
            ),
        list_depth(trimmed(l, 0)) == 1,
{
    let ts = trimmed(l, 0).items();
    lemma_items_depth_bound(ts, 0);
    assert forall|i: int| 0 <= i < ts.len() implies item_depth(#[trigger] ts[i]) <= 0 by {
        assert(ts[i] == l.items()[i].with_nested(None));
    }
}

/// Trimming at depth `n` leaves a list of at most `n + 1` levels.
pub proof fn lemma_trim_bound(l: SpecList, n: nat)
    ensures
        list_depth(trimmed(l, n)) <= n + 1,
    decreases l,
{
    let items = l.items();
    let ts = trimmed(l, n).items();
    assert forall|i: int| 0 <= i < ts.len() implies item_depth(#[trigger] ts[i]) <= n by {
        assert(ts[i] == trimmed_item(items[i], n));
        if n > 0 {
            match items[i] {
                SpecListItem::Text(_, Some(nl)) => {
                    assert(decreases_to!(l => items[i]));
                    lemma_trim_bound(nl, (n - 1) as nat);
                },
                SpecListItem::Task(_, _, Some(nl)) => {
                    assert(decreases_to!(l => items[i]));
                    lemma_trim_bound(nl, (n - 1) as nat);
                },
                _ => {},
            }
        }
    }
    lemma_items_depth_bound(ts, n);
}

/// Trimming at depth `n` keeps a list of at most `n + 1` levels exactly.
pub proof fn lemma_trim_keeps(l: SpecList, n: nat)
    requires
        list_depth(l) <= n + 1,
    ensures
        trimmed(l, n) == l,
    decreases l,
{
    let items = l.items();
    let ts = trimmed(l, n).items();
    lemma_items_depth_bound(items, n);
    assert forall|i: int| 0 <= i < ts.len() implies #[trigger] ts[i] == items[i] by {
        assert(ts[i] == trimmed_item(items[i], n));
        assert(item_depth(items[i]) <= n);
        match items[i] {
            SpecListItem::Text(_, Some(nl)) => {
                assert(decreases_to!(l => items[i]));
                lemma_trim_keeps(nl, (n - 1) as nat);
            },
            SpecListItem::Task(_, _, Some(nl)) => {
                assert(decreases_to!(l => items[i]));
                lemma_trim_keeps(nl, (n - 1) as nat);
            },
            _ => {},
        }
    }
    assert(ts =~= items);
}

proof fn lemma_counts_by_completion(a: Seq<SpecListItem>, b: Seq<SpecListItem>)
    requires
        a.len() == b.len(),
        forall|i: int|
            0 <= i < a.len() ==> (#[trigger] a[i]).with_nested(None) == b[i].with_nested(None),
    ensures
        item_counts(a) == item_counts(b),
    decreases a.len(),
{
    if a.len() > 0 {
        let (a0, b0) = (a.drop_last(), b.drop_last());
        assert forall|i: int| 0 <= i < a0.len() implies (#[trigger] a0[i]).with_nested(None)
            == b0[i].with_nested(None) by {
            assert(a0[i] == a[i] && b0[i] == b[i]);
        }
        lemma_counts_by_completion(a0, b0);
        assert(a.last().with_nested(None) == b.last().with_nested(None));
    }
}

/// Completion counting is shallow: the counts of a list's items do not change
/// when their nested lists are dropped, whatever those hold.
pub proof fn lemma_completion_is_shallow(l: SpecList)
    ensures
        item_counts(trimmed(l, 0).items()) == item_counts(l.items()),
{
    let t = trimmed(l, 0).items();
    assert forall|i: int| 0 <= i < t.len() implies (#[trigger] t[i]).with_nested(None)
        == l.items()[i].with_nested(None) by {
        assert(t[i] == l.items()[i].with_nested(None));
    }
    lemma_counts_by_completion(t, l.items());
}

/// The builder inverts the canonical encoding: reading, into an empty nodo,
/// events that stand for a document's tags (as a frontmatter), its title (as a
/// level 1 heading) and its blocks gives the document back, for every document
/// without dates whose parts the builder can produce (tags without commas or
/// white space at their ends, not empty; lines not empty; in items only
/// paragraphs, quotes and code; no text item that begins like a checkbox).
pub proof fn lemma_read_canonical_events(d: SpecNodo, ev: Seq<Event>, format: Seq<char>)
    requires
        tags_ok(d.tags),
        d.start_date is None,
        d.due_date is None,
        blocks_ok(d.blocks),
        ev.len() == enc_document(d).len(),
        forall|k: int| 0 <= k < ev.len() ==> view_event(#[trigger] ev[k]) == enc_document(d)[k],
    ensures
        read_spec(empty_nodo(), ev, format) == SpecRead::Read(d),
{
    let front = enc_front(d.tags);
    assert(matches_at(ev, 0, enc_document(d))) by {
        assert forall|k: int| 0 <= k < enc_document(d).len() implies view_event(#[trigger] ev[0 + k])
            == enc_document(d)[k] by {
            assert(ev[0 + k] == ev[k]);
        }
    }
    lemma_matches_split(ev, 0, front, enc_nodo(d));
    let p0 = front.len() as int;
    lemma_canonical_parts(ev, p0, d);
    if d.tags.len() > 0 {
        lemma_front(ev, d.tags, format);
    } else {
        assert(d.tags =~= Seq::<Seq<char>>::empty());
    }
    let all = seq![SpecBlock::Heading(d.title, 1)] + d.blocks;
    assert(all.drop_first() =~= d.blocks);
    assert(is_title(all[0]));
    assert(take_title(all) == (d.title, d.blocks));
    assert(Seq::<SpecBlock>::empty() + d.blocks =~= d.blocks);
}

/// Writing then reading gives the document back, and formatting again gives
/// the same text, for every document without dates whose parts the builder
/// can produce, wherever the tokenizer turns its canonical text into the
/// events that stand for it.
pub proof fn lemma_write_read_round_trip(d: SpecNodo, format: Seq<char>)
    requires
        tags_ok(d.tags),
        d.start_date is None,
        d.due_date is None,
        blocks_ok(d.blocks),
        markdown_events_of(nodo_text(d, format)).len() == enc_document(d).len(),
        forall|k: int|
            0 <= k < enc_document(d).len() ==> view_event(
                #[trigger] markdown_events_of(nodo_text(d, format))[k],
            ) == enc_document(d)[k],
    ensures
        read_spec(empty_nodo(), markdown_events_of(nodo_text(d, format)), format) == SpecRead::Read(d),
        read_spec(empty_nodo(), markdown_events_of(nodo_text(d, format)), format) matches SpecRead::Read(
            d2,
        ) && nodo_text(d2, format) == nodo_text(d, format),
{
    lemma_read_canonical_events(d, markdown_events_of(nodo_text(d, format)), format);
}

} // verus!
