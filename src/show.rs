//! Transforms of a document used when showing it: trimming nested lists to a
//! depth, keeping tasks by completion state, and counting completed tasks.
use vstd::prelude::*;
use crate::cli::Show;
use crate::overview::raw_text;
use crate::text::{has_prefix, lower_of, parse_u32, parsed_u32, starts_with, to_lower};
use crate::nodo::{view_strings, SpecNodo, SpecTextItem, Text, TextItem, view_blocks, Block, List, ListItem, Nodo, SpecBlock, SpecList, SpecListItem, copy_blocks, view_list_items};

verus! {

/// The list with every nested list beyond `depth` levels dropped.
pub open spec fn trimmed(l: SpecList, depth: nat) -> SpecList
    decreases l,
{
    let items = l.items();
    l.with_items(
        Seq::new(
            items.len(),
            |i: int|
                if 0 <= i < items.len() {
                    trimmed_item(items[i], depth)
                } else {
                    SpecListItem::Text(Seq::empty(), None)
                },
        ),
    )
}

pub open spec fn trimmed_item(it: SpecListItem, depth: nat) -> SpecListItem
    decreases it,
{
    if depth == 0 {
        it.with_nested(None)
    } else {
        match it {
            SpecListItem::Text(b, Some(n)) => SpecListItem::Text(b, Some(trimmed(n, (depth - 1) as nat))),
            SpecListItem::Task(b, c, Some(n)) => SpecListItem::Task(
                b,
                c,
                Some(trimmed(n, (depth - 1) as nat)),
            ),
            _ => it,
        }
    }
}

/// The list without the tasks whose completion differs from `keep`, at every level.
pub open spec fn filtered(l: SpecList, keep: bool) -> SpecList
    decreases l,
{
    l.with_items(filtered_items(l.items(), keep))
}

pub open spec fn filtered_items(items: Seq<SpecListItem>, keep: bool) -> Seq<SpecListItem>
    decreases items,
{
    if items.len() == 0 {
        Seq::empty()
    } else {
        let rest = filtered_items(items.drop_last(), keep);
        match items.last() {
            SpecListItem::Text(b, Some(n)) => rest.push(SpecListItem::Text(b, Some(filtered(n, keep)))),
            SpecListItem::Text(b, None) => rest.push(SpecListItem::Text(b, None)),
            SpecListItem::Task(b, c, n) => if c == keep {
                match n {
                    Some(n) => rest.push(SpecListItem::Task(b, c, Some(filtered(n, keep)))),
                    None => rest.push(SpecListItem::Task(b, c, None)),
                }
            } else {
                rest
            },
        }
    }
}

/// Completed and all tasks among the items themselves, not their nested lists.
pub open spec fn item_counts(items: Seq<SpecListItem>) -> (nat, nat)
    decreases items.len(),
{
    if items.len() == 0 {
        (0, 0)
    } else {
        let (c, t) = item_counts(items.drop_last());
        match items.last() {
            SpecListItem::Task(_, done, _) => (if done { c + 1 } else { c }, t + 1),
            _ => (c, t),
        }
    }
}

/// Completed and all tasks over the items of the top-level lists.
pub open spec fn completion(blocks: Seq<SpecBlock>) -> (nat, nat)
    decreases blocks.len(),
{
    if blocks.len() == 0 {
        (0, 0)
    } else {
        let (c, t) = completion(blocks.drop_last());
        match blocks.last() {
            SpecBlock::List(l) => {
                let (c2, t2) = item_counts(l.items());
                (c + c2, t + t2)
            },
            _ => (c, t),
        }
    }
}

pub open spec fn saturated(n: nat) -> u32 {
    if n > u32::MAX {
        u32::MAX
    } else {
        n as u32
    }
}

pub fn list_items(list: &List) -> (r: &Vec<ListItem>)
    ensures
        view_list_items(r@) == list.view().items(),
{
    match list {
        List::Plain(items) => items,
        List::Numbered(items, _) => items,
    }
}

/// Drops nested lists below `depth` levels; without a depth the list is kept whole.
pub fn trim_list(list: &List, depth: Option<u32>) -> (r: List)
    ensures
        r.view() == match depth {
            Some(d) => trimmed(list.view(), d as nat),
            None => list.view(),
        },
    decreases list,
{
    match depth {
        None => list.deep_copy(),
        Some(d) => {
            let items = match list {
                List::Plain(items) => items,
                List::Numbered(items, _) => items,
            };
            let ghost spec_items = list.view().items();
            proof {
                assert(decreases_to!(list => items));
            }
            let mut out: Vec<ListItem> = Vec::new();
            let mut i: usize = 0;
            while i < items.len()
                invariant
                    i <= items.len(),
                    decreases_to!(list => items),
                    view_list_items(items@) == spec_items,
                    out@.len() == i,
                    forall|j: int|
                        0 <= j < i ==> (#[trigger] out@[j]).view() == trimmed_item(
                            spec_items[j],
                            d as nat,
                        ),
                decreases items.len() - i,
            {
                let item = &items[i];
                proof {
                    assert(decreases_to!(list => items));
                    assert(decreases_to!(items => items@[i as int]));
                    assert(decreases_to!(list => items@[i as int]));
                    assert(item.view() == spec_items[i as int]);
                }
                let nested = match item {
                    ListItem::Text(_, n) => n,
                    ListItem::Task(_, _, n) => n,
                };
                let sub = if d > 0 {
                    match nested {
                        Some(n) => Some(trim_list(n, Some(d - 1))),
                        None => None,
                    }
                } else {
                    None
                };
                let new_item = match item {
                    ListItem::Text(b, _) => ListItem::Text(copy_blocks(b), sub),
                    ListItem::Task(b, c, _) => ListItem::Task(copy_blocks(b), *c, sub),
                };
                out.push(new_item);
                i = i + 1;
            }
            assert(view_list_items(out@) =~= trimmed(list.view(), d as nat).items());
            match list {
                List::Plain(_) => List::Plain(out),
                List::Numbered(_, n) => List::Numbered(out, *n),
            }
        },
    }
}

/// Removes, at every level, the tasks whose completion differs from `complete`;
/// text items stay and their nested lists are filtered. Without a filter the
/// list is kept whole.
pub fn filter_list(list: &List, complete: Option<bool>) -> (r: List)
    ensures
        r.view() == match complete {
            Some(keep) => filtered(list.view(), keep),
            None => list.view(),
        },
    decreases list,
{
    match complete {
        None => list.deep_copy(),
        Some(keep) => {
            let items = match list {
                List::Plain(items) => items,
                List::Numbered(items, _) => items,
            };
            let ghost spec_items = list.view().items();
            proof {
                assert(decreases_to!(list => items));
            }
            let mut out: Vec<ListItem> = Vec::new();
            let mut i: usize = 0;
            while i < items.len()
                invariant
                    i <= items.len(),
                    decreases_to!(list => items),
                    view_list_items(items@) == spec_items,
                    view_list_items(out@) == filtered_items(spec_items.subrange(0, i as int), keep),
                decreases items.len() - i,
            {
                let item = &items[i];
                proof {
                    assert(decreases_to!(items => items@[i as int]));
                    assert(decreases_to!(list => items@[i as int]));
                    assert(item.view() == spec_items[i as int]);
                    assert(spec_items.subrange(0, i + 1).drop_last() =~= spec_items.subrange(0, i as int));
                }
                let ghost before = out@;
                match item {
                    ListItem::Text(b, n) => {
                        let sub = match n {
                            Some(n) => Some(filter_list(n, Some(keep))),
                            None => None,
                        };
                        out.push(ListItem::Text(copy_blocks(b), sub));
                    },
                    ListItem::Task(b, c, n) => {
                        if *c == keep {
                            let sub = match n {
                                Some(n) => Some(filter_list(n, Some(keep))),
                                None => None,
                            };
                            out.push(ListItem::Task(copy_blocks(b), *c, sub));
                        }
                    },
                }
                assert(view_list_items(out@) =~= filtered_items(
                    spec_items.subrange(0, i + 1),
                    keep,
                ));
                i = i + 1;
            }
            assert(spec_items.subrange(0, items.len() as int) =~= spec_items);
            match list {
                List::Plain(_) => List::Plain(out),
                List::Numbered(_, n) => List::Numbered(out, *n),
            }
        },
    }
}

/// The number of completed tasks and of all tasks among the direct items of
/// the nodo's top-level lists; each count stops at `u32::MAX`.
pub fn get_num_complete(nodo: &Nodo) -> (r: (u32, u32))
    ensures
        r == (saturated(completion(nodo.view().blocks).0), saturated(completion(nodo.view().blocks).1)),
{
    let blocks = nodo.blocks();
    let ghost sb = nodo.view().blocks;
    let mut complete: u32 = 0;
    let mut total: u32 = 0;
    let mut i: usize = 0;
    while i < blocks.len()
        invariant
            i <= blocks.len(),
            view_blocks(blocks@) == sb,
            complete == saturated(completion(sb.subrange(0, i as int)).0),
            total == saturated(completion(sb.subrange(0, i as int)).1),
        decreases blocks.len() - i,
    {
        proof {
            assert(sb.subrange(0, i + 1).drop_last() =~= sb.subrange(0, i as int));
            assert(blocks@[i as int].view() == sb[i as int]);
        }
        match &blocks[i] {
            Block::List(l) => {
                let items = list_items(l);
                let ghost si = l.view().items();
                let ghost c0 = completion(sb.subrange(0, i as int)).0;
                let ghost t0 = completion(sb.subrange(0, i as int)).1;
                let mut j: usize = 0;
                while j < items.len()
                    invariant
                        j <= items.len(),
                        view_list_items(items@) == si,
                        complete == saturated(c0 + item_counts(si.subrange(0, j as int)).0),
                        total == saturated(t0 + item_counts(si.subrange(0, j as int)).1),
                    decreases items.len() - j,
                {
                    proof {
                        assert(si.subrange(0, j + 1).drop_last() =~= si.subrange(0, j as int));
                        assert(items@[j as int].view() == si[j as int]);
                    }
                    match &items[j] {
                        ListItem::Task(_, done, _) => {
                            if *done && complete < u32::MAX {
                                complete = complete + 1;
                            }
                            if total < u32::MAX {
                                total = total + 1;
                            }
                        },
                        ListItem::Text(_, _) => {},
                    }
                    j = j + 1;
                }
                assert(si.subrange(0, items.len() as int) =~= si);
            },
            _ => {},
        }
        i = i + 1;
    }
    assert(sb.subrange(0, blocks.len() as int) =~= sb);
    (complete, total)
}

/// The text of a line without its markup.
pub open spec fn plain_text(t: Seq<SpecTextItem>) -> Seq<char>
    decreases t.len(),
{
    if t.len() == 0 {
        Seq::empty()
    } else {
        plain_text(t.drop_last()) + raw_text(t.last())
    }
}

impl Text {
    /// The text without its markup.
    pub fn to_string(&self) -> (r: String)
        ensures
            r@ == plain_text(self.view()),
    {
        let ghost tv = self.view();
        let mut s = String::new();
        let mut i: usize = 0;
        assert(tv.subrange(0, 0) =~= Seq::<SpecTextItem>::empty());
        while i < self.inner.len()
            invariant
                i <= self.inner.len(),
                tv == self.view(),
                tv.len() == self.inner@.len(),
                s@ == plain_text(tv.subrange(0, i as int)),
            decreases self.inner.len() - i,
        {
            let word = match &self.inner[i] {
                TextItem::PlainText(w) => w,
                TextItem::StyledText(w, _) => w,
                TextItem::Link(w, _) => w,
            };
            s.append(word.as_str());
            assert(tv.subrange(0, i + 1).drop_last() =~= tv.subrange(0, i as int));
            assert(s@ =~= plain_text(tv.subrange(0, i + 1)));
            i = i + 1;
        }
        assert(tv.subrange(0, i as int) =~= tv);
        s
    }
}

/// Whether a heading, the `count`-th one counting the title as the first,
/// is the one asked for: its text begins with the header, ignoring case, or
/// the header is its number.
pub open spec fn heading_hit(t: Seq<SpecTextItem>, header: Seq<char>, count: nat) -> bool {
    has_prefix(lower_of(plain_text(t)), lower_of(header)) || match parsed_u32(header) {
        Some(k) => k as nat == count,
        None => false,
    }
}

/// What a list shows: trimmed to the depth, then filtered by completion.
pub open spec fn shown_list(l: SpecList, depth: Option<u32>, complete: Option<bool>) -> SpecList {
    let t = match depth {
        Some(d) => trimmed(l, d as nat),
        None => l,
    };
    match complete {
        Some(keep) => filtered(t, keep),
        None => t,
    }
}

/// Where the selection stands: whether a header was asked for and met, the
/// number of headings seen, and the blocks kept.
pub struct Section {
    pub matched: Option<bool>,
    pub count: nat,
    pub blocks: Seq<SpecBlock>,
}

/// The blocks kept from `i` on, up to the heading after the one asked for.
/// Once a heading is met (`matched` is `Some(true)`), the blocks after it are
/// kept up to the next heading. Before that, headings are kept and other blocks
/// are dropped. Without any header (`None`) every block is kept. An empty
/// header names the title (it begins every text), so the blocks kept are
/// those before the first heading.
pub open spec fn section_from(
    bs: Seq<SpecBlock>,
    i: int,
    header: Seq<char>,
    depth: Option<u32>,
    complete: Option<bool>,
    st: Section,
) -> Section
    decreases bs.len() - i,
{
    if i < 0 || i >= bs.len() {
        st
    } else {
        match bs[i] {
            SpecBlock::Heading(t, l) => if st.matched == Some(true) {
                st
            } else {
                let st2 = if st.matched == Some(false) {
                    let c = st.count + 1;
                    Section { matched: Some(heading_hit(t, header, c)), count: c, blocks: st.blocks }
                } else {
                    st
                };
                section_from(
                    bs,
                    i + 1,
                    header,
                    depth,
                    complete,
                    Section { blocks: st2.blocks.push(SpecBlock::Heading(t, l)), ..st2 },
                )
            },
            SpecBlock::List(l) => if st.matched == Some(false) {
                section_from(bs, i + 1, header, depth, complete, st)
            } else {
                section_from(
                    bs,
                    i + 1,
                    header,
                    depth,
                    complete,
                    Section {
                        blocks: st.blocks.push(SpecBlock::List(shown_list(l, depth, complete))),
                        ..st
                    },
                )
            },
            b => if st.matched == Some(false) {
                section_from(bs, i + 1, header, depth, complete, st)
            } else {
                section_from(
                    bs,
                    i + 1,
                    header,
                    depth,
                    complete,
                    Section { blocks: st.blocks.push(b), ..st },
                )
            },
        }
    }
}

/// Whether the title is the heading asked for; none when no header is asked for.
pub open spec fn title_match(n: SpecNodo, header: Seq<char>) -> Option<bool> {
    if heading_hit(n.title, header, 1) {
        Some(true)
    } else if header.len() == 0 {
        None
    } else {
        Some(false)
    }
}

/// The part of a nodo that showing it with a header gives: its metadata, its
/// title unless another heading was asked for, and the kept blocks; none when
/// a header was asked for and no heading is it.
pub open spec fn section_of(
    n: SpecNodo,
    header: Seq<char>,
    depth: Option<u32>,
    complete: Option<bool>,
) -> Option<SpecNodo> {
    let m = title_match(n, header);
    let st = section_from(
        n.blocks,
        0,
        header,
        depth,
        complete,
        Section { matched: m, count: 1, blocks: Seq::empty() },
    );
    if st.matched == Some(false) {
        None
    } else {
        Some(
            SpecNodo {
                tags: n.tags,
                start_date: n.start_date,
                due_date: n.due_date,
                title: if m == Some(false) {
                    Seq::empty()
                } else {
                    n.title
                },
                blocks: st.blocks,
            },
        )
    }
}

fn hit(t: &Text, header: &str, header_lower: &str, index: Option<u32>, count: u128) -> (r: bool)
    requires
        header_lower@ == lower_of(header@),
        index == parsed_u32(header@),
    ensures
        r == heading_hit(t.view(), header@, count as nat),
{
    let text = to_lower(t.to_string().as_str());
    starts_with(text.as_str(), header_lower) || match index {
        Some(k) => k as u128 == count,
        None => false,
    }
}

impl Show {
    /// The part of a nodo to show for a header (a heading's start, ignoring
    /// case, or its number counting the title as 1), with lists trimmed to the
    /// depth and filtered by completion; none when the header names no heading.
    /// An empty header names the title, so what is shown ends at the first
    /// heading after it.
    pub fn show_nodo(&self, nodo: &Nodo, header: &str) -> (r: Option<Nodo>)
        ensures
            match r {
                Some(n) => section_of(nodo.view(), header@, self.depth, self.complete) == Some(
                    n.view(),
                ),
                None => section_of(nodo.view(), header@, self.depth, self.complete) is None,
            },
    {
        let ghost nv = nodo.view();
        let header_lower = to_lower(header);
        let index = parse_u32(header);
        let empty = header.unicode_len() == 0;
        let title_hit = hit(nodo.title(), header, header_lower.as_str(), index, 1);
        let m0: Option<bool> = if title_hit {
            Some(true)
        } else if empty {
            None
        } else {
            Some(false)
        };
        assert(m0 == title_match(nv, header@));
        let mut matched = m0;
        let mut count: u128 = 1;
        let blocks = nodo.blocks();
        let ghost bv = view_blocks(blocks@);
        let mut out: Vec<Block> = Vec::new();
        let mut i: usize = 0;
        let mut stopped = false;
        let ghost init = Section { matched: m0, count: 1, blocks: Seq::empty() };
        assert(view_blocks(out@) =~= Seq::empty());
        while i < blocks.len() && !stopped
            invariant
                i <= blocks.len(),
                bv == view_blocks(blocks@),
                bv == nv.blocks,
                count as nat <= i + 1,
                header_lower@ == lower_of(header@),
                index == parsed_u32(header@),
                !stopped ==> section_from(bv, 0, header@, self.depth, self.complete, init)
                    == section_from(
                    bv,
                    i as int,
                    header@,
                    self.depth,
                    self.complete,
                    Section { matched, count: count as nat, blocks: view_blocks(out@) },
                ),
                stopped ==> section_from(bv, 0, header@, self.depth, self.complete, init) == (Section {
                    matched,
                    count: count as nat,
                    blocks: view_blocks(out@),
                }),
            decreases blocks.len() - i, if stopped { 0int } else { 1int },
        {
            let ghost ov = view_blocks(out@);
            assert(blocks@[i as int].view() == bv[i as int]);
            match &blocks[i] {
                Block::Heading(t, l) => {
                    if matched == Some(true) {
                        stopped = true;
                    } else {
                        if matched == Some(false) {
                            count = count + 1;
                            matched = Some(hit(t, header, header_lower.as_str(), index, count));
                        }
                        out.push(Block::Heading(t.deep_copy(), *l));
                        assert(view_blocks(out@) =~= ov.push(SpecBlock::Heading(t.view(), *l)));
                        i = i + 1;
                    }
                },
                Block::List(l) => {
                    if matched != Some(false) {
                        let shown = filter_list(&trim_list(l, self.depth), self.complete);
                        out.push(Block::List(shown));
                        assert(view_blocks(out@) =~= ov.push(
                            SpecBlock::List(shown_list(l.view(), self.depth, self.complete)),
                        ));
                    }
                    i = i + 1;
                },
                b => {
                    if matched != Some(false) {
                        let c = b.deep_copy();
                        out.push(c);
                        assert(view_blocks(out@) =~= ov.push(b.view()));
                    }
                    i = i + 1;
                },
            }
        }
        if matched == Some(false) {
            return None;
        }
        let title = if m0 == Some(false) {
            Text { inner: Vec::new() }
        } else {
            nodo.title().deep_copy()
        };
        assert(m0 == Some(false) ==> title.view() =~= Seq::empty());
        let mut tags: Vec<String> = Vec::new();
        let src_tags = nodo.tags();
        let mut k: usize = 0;
        while k < src_tags.len()
            invariant
                k <= src_tags.len(),
                tags@.len() == k,
                forall|j: int| 0 <= j < k ==> (#[trigger] tags@[j])@ == src_tags@[j]@,
            decreases src_tags.len() - k,
        {
            tags.push(src_tags[k].clone());
            k = k + 1;
        }
        assert(view_strings(tags@) =~= view_strings(src_tags@));
        Some(Nodo::from_parts(tags, nodo.start_date(), nodo.due_date(), title, out))
    }
}

} // verus!
