//! The document model: a nodo is a mixture of a todo and a note, made of
//! optional metadata and a sequence of blocks.
use vstd::prelude::*;

verus! {

/// A calendar date, held as year, month and day.
#[derive(Clone, Copy, Debug, PartialEq, Eq, Structural)]
pub struct Date {
    pub year: i32,
    pub month: u32,
    pub day: u32,
}

impl Date {
    pub fn from_ymd(year: i32, month: u32, day: u32) -> (r: Date)
        ensures
            r == (Date { year, month, day }),
    {
        Date { year, month, day }
    }
}

/// A style for a piece of text.
#[derive(Clone, Copy, Debug, PartialEq, Eq, Structural)]
pub enum TextStyle {
    Emphasis,
    Strong,
    Strikethrough,
    Code,
}

/// A piece of text, possibly decorated with a style.
#[derive(Clone, Debug, PartialEq)]
pub enum TextItem {
    /// Just text
    PlainText(String),
    /// A piece of styled text
    StyledText(String, TextStyle),
    /// A link: the name, then the uri
    Link(String, String),
}

/// A single line of potentially decorated text.
#[derive(Clone, Debug, PartialEq, Default)]
pub struct Text {
    pub inner: Vec<TextItem>,
}

/// A block-like element of the document.
#[derive(Debug, PartialEq)]
pub enum Block {
    /// A heading text with a level
    Heading(Text, u32),
    /// A list of text items or tasks, plain or numbered
    List(List),
    /// A sequence of lines of text
    Paragraph(Vec<Text>),
    /// A separator between blocks
    Rule,
    /// A quoted sequence of blocks
    BlockQuote(Vec<Block>),
    /// A code block: the language, then the raw lines
    Code(String, Vec<String>),
}

#[derive(Debug, PartialEq)]
pub enum List {
    Plain(Vec<ListItem>),
    /// The items and the index of the first one
    Numbered(Vec<ListItem>, u32),
}

/// An item of a list: its blocks and, optionally, a nested list.
#[derive(Debug, PartialEq)]
pub enum ListItem {
    Text(Vec<Block>, Option<List>),
    /// A task also carries whether it is completed
    Task(Vec<Block>, bool, Option<List>),
}

// ---- the mathematical model ----
pub enum SpecTextItem {
    Plain(Seq<char>),
    Styled(Seq<char>, TextStyle),
    Link(Seq<char>, Seq<char>),
}

pub enum SpecBlock {
    Heading(Seq<SpecTextItem>, u32),
    List(SpecList),
    Paragraph(Seq<Seq<SpecTextItem>>),
    Rule,
    BlockQuote(Seq<SpecBlock>),
    Code(Seq<char>, Seq<Seq<char>>),
}

pub enum SpecList {
    Plain(Seq<SpecListItem>),
    Numbered(Seq<SpecListItem>, u32),
}

pub enum SpecListItem {
    Text(Seq<SpecBlock>, Option<SpecList>),
    Task(Seq<SpecBlock>, bool, Option<SpecList>),
}

pub struct SpecNodo {
    pub tags: Seq<Seq<char>>,
    pub start_date: Option<Date>,
    pub due_date: Option<Date>,
    pub title: Seq<SpecTextItem>,
    pub blocks: Seq<SpecBlock>,
}

impl SpecList {
    pub open spec fn items(self) -> Seq<SpecListItem> {
        match self {
            SpecList::Plain(items) => items,
            SpecList::Numbered(items, _) => items,
        }
    }

    /// The same kind of list (and first index) holding other items.
    pub open spec fn with_items(self, items: Seq<SpecListItem>) -> SpecList {
        match self {
            SpecList::Plain(_) => SpecList::Plain(items),
            SpecList::Numbered(_, n) => SpecList::Numbered(items, n),
        }
    }
}

impl SpecListItem {
    pub open spec fn blocks(self) -> Seq<SpecBlock> {
        match self {
            SpecListItem::Text(b, _) => b,
            SpecListItem::Task(b, _, _) => b,
        }
    }

    pub open spec fn nested(self) -> Option<SpecList> {
        match self {
            SpecListItem::Text(_, n) => n,
            SpecListItem::Task(_, _, n) => n,
        }
    }

    /// The same item with another nested list.
    pub open spec fn with_nested(self, n: Option<SpecList>) -> SpecListItem {
        match self {
            SpecListItem::Text(b, _) => SpecListItem::Text(b, n),
            SpecListItem::Task(b, c, _) => SpecListItem::Task(b, c, n),
        }
    }
}

pub open spec fn view_strings(s: Seq<String>) -> Seq<Seq<char>> {
    Seq::new(s.len(), |i: int| s[i]@)
}

pub open spec fn view_text_items(s: Seq<TextItem>) -> Seq<SpecTextItem> {
    Seq::new(s.len(), |i: int| s[i].view())
}

pub open spec fn view_lines(s: Seq<Text>) -> Seq<Seq<SpecTextItem>> {
    Seq::new(s.len(), |i: int| s[i].view())
}

pub open spec fn view_blocks(s: Seq<Block>) -> Seq<SpecBlock>
    decreases s,
{
    Seq::new(
        s.len(),
        |i: int|
            if 0 <= i < s.len() {
                s[i].view()
            } else {
                SpecBlock::Rule
            },
    )
}

pub open spec fn view_list_items(s: Seq<ListItem>) -> Seq<SpecListItem>
    decreases s,
{
    Seq::new(
        s.len(),
        |i: int|
            if 0 <= i < s.len() {
                s[i].view()
            } else {
                SpecListItem::Text(Seq::empty(), None)
            },
    )
}

impl TextItem {
    pub open spec fn view(&self) -> SpecTextItem {
        match self {
            TextItem::PlainText(s) => SpecTextItem::Plain(s@),
            TextItem::StyledText(s, st) => SpecTextItem::Styled(s@, *st),
            TextItem::Link(n, u) => SpecTextItem::Link(n@, u@),
        }
    }

    pub fn emphasis(text: &str) -> (r: Self)
        ensures
            r.view() == SpecTextItem::Styled(text@, TextStyle::Emphasis),
    {
        TextItem::StyledText(String::from_str(text), TextStyle::Emphasis)
    }

    pub fn strong(text: &str) -> (r: Self)
        ensures
            r.view() == SpecTextItem::Styled(text@, TextStyle::Strong),
    {
        TextItem::StyledText(String::from_str(text), TextStyle::Strong)
    }

    pub fn strikethrough(text: &str) -> (r: Self)
        ensures
            r.view() == SpecTextItem::Styled(text@, TextStyle::Strikethrough),
    {
        TextItem::StyledText(String::from_str(text), TextStyle::Strikethrough)
    }

    pub fn code(text: &str) -> (r: Self)
        ensures
            r.view() == SpecTextItem::Styled(text@, TextStyle::Code),
    {
        TextItem::StyledText(String::from_str(text), TextStyle::Code)
    }

    pub fn plain(text: &str) -> (r: Self)
        ensures
            r.view() == SpecTextItem::Plain(text@),
    {
        TextItem::PlainText(String::from_str(text))
    }

    pub fn link(name: &str, uri: &str) -> (r: Self)
        ensures
            r.view() == SpecTextItem::Link(name@, uri@),
    {
        TextItem::Link(String::from_str(name), String::from_str(uri))
    }

    pub fn deep_copy(&self) -> (r: Self)
        ensures
            r.view() == self.view(),
    {
        match self {
            TextItem::PlainText(s) => TextItem::PlainText(s.clone()),
            TextItem::StyledText(s, st) => TextItem::StyledText(s.clone(), *st),
            TextItem::Link(n, u) => TextItem::Link(n.clone(), u.clone()),
        }
    }
}

impl Text {
    pub open spec fn view(&self) -> Seq<SpecTextItem> {
        view_text_items(self.inner@)
    }

    pub fn from_items(inner: Vec<TextItem>) -> (r: Text)
        ensures
            r.view() == view_text_items(inner@),
    {
        Text { inner }
    }

    pub fn deep_copy(&self) -> (r: Self)
        ensures
            r.view() == self.view(),
    {
        let mut inner: Vec<TextItem> = Vec::new();
        let mut i: usize = 0;
        while i < self.inner.len()
            invariant
                i <= self.inner.len(),
                inner@.len() == i,
                forall|j: int| 0 <= j < i ==> (#[trigger] inner@[j]).view() == self.inner@[j].view(),
            decreases self.inner.len() - i,
        {
            inner.push(self.inner[i].deep_copy());
            i = i + 1;
        }
        assert(view_text_items(inner@) =~= view_text_items(self.inner@));
        Text { inner }
    }
}

impl From<Vec<TextItem>> for Text {
    fn from(inner: Vec<TextItem>) -> (r: Text) {
        Text { inner }
    }
}

impl vstd::std_specs::convert::FromSpecImpl<Vec<TextItem>> for Text {
    open spec fn obeys_from_spec() -> bool {
        true
    }

    open spec fn from_spec(inner: Vec<TextItem>) -> Text {
        Text { inner }
    }
}

impl Block {
    pub open spec fn view(&self) -> SpecBlock
        decreases self,
    {
        match self {
            Block::Heading(t, l) => SpecBlock::Heading(t.view(), *l),
            Block::List(l) => SpecBlock::List(l.view()),
            Block::Paragraph(lines) => SpecBlock::Paragraph(view_lines(lines@)),
            Block::Rule => SpecBlock::Rule,
            Block::BlockQuote(bs) => SpecBlock::BlockQuote(view_blocks(bs@)),
            Block::Code(lang, lines) => SpecBlock::Code(lang@, view_strings(lines@)),
        }
    }
}

impl Block {
    pub fn deep_copy(&self) -> (r: Block)
        ensures
            r.view() == self.view(),
        decreases self,
    {
        match self {
            Block::Heading(t, l) => Block::Heading(t.deep_copy(), *l),
            Block::List(l) => Block::List(l.deep_copy()),
            Block::Paragraph(lines) => {
                let mut out: Vec<Text> = Vec::new();
                let mut i: usize = 0;
                while i < lines.len()
                    invariant
                        i <= lines.len(),
                        out@.len() == i,
                        forall|j: int| 0 <= j < i ==> (#[trigger] out@[j]).view() == lines@[j].view(),
                    decreases lines.len() - i,
                {
                    out.push(lines[i].deep_copy());
                    i = i + 1;
                }
                assert(view_lines(out@) =~= view_lines(lines@));
                Block::Paragraph(out)
            },
            Block::Rule => Block::Rule,
            Block::BlockQuote(bs) => Block::BlockQuote(copy_blocks(bs)),
            Block::Code(lang, lines) => {
                let mut out: Vec<String> = Vec::new();
                let mut i: usize = 0;
                while i < lines.len()
                    invariant
                        i <= lines.len(),
                        out@.len() == i,
                        forall|j: int| 0 <= j < i ==> (#[trigger] out@[j])@ == lines@[j]@,
                    decreases lines.len() - i,
                {
                    out.push(lines[i].clone());
                    i = i + 1;
                }
                assert(view_strings(out@) =~= view_strings(lines@));
                Block::Code(lang.clone(), out)
            },
        }
    }
}

/// A copy of a sequence of blocks, equal to it in the model.
pub fn copy_blocks(bs: &Vec<Block>) -> (r: Vec<Block>)
    ensures
        view_blocks(r@) == view_blocks(bs@),
    decreases bs,
{
    let mut out: Vec<Block> = Vec::new();
    let mut i: usize = 0;
    while i < bs.len()
        invariant
            i <= bs.len(),
            out@.len() == i,
            forall|j: int| 0 <= j < i ==> (#[trigger] out@[j]).view() == bs@[j].view(),
        decreases bs.len() - i,
    {
        proof {
            assert(decreases_to!(bs => bs@[i as int]));
        }
        out.push(bs[i].deep_copy());
        i = i + 1;
    }
    assert(view_blocks(out@) =~= view_blocks(bs@));
    out
}

/// A copy of a sequence of list items, equal to it in the model.
pub fn copy_list_items(items: &Vec<ListItem>) -> (r: Vec<ListItem>)
    ensures
        view_list_items(r@) == view_list_items(items@),
    decreases items,
{
    let mut out: Vec<ListItem> = Vec::new();
    let mut i: usize = 0;
    while i < items.len()
        invariant
            i <= items.len(),
            out@.len() == i,
            forall|j: int| 0 <= j < i ==> (#[trigger] out@[j]).view() == items@[j].view(),
        decreases items.len() - i,
    {
        proof {
            assert(decreases_to!(items => items@[i as int]));
        }
        out.push(items[i].deep_copy());
        i = i + 1;
    }
    assert(view_list_items(out@) =~= view_list_items(items@));
    out
}

impl List {
    pub fn deep_copy(&self) -> (r: List)
        ensures
            r.view() == self.view(),
        decreases self,
    {
        match self {
            List::Plain(items) => List::Plain(copy_list_items(items)),
            List::Numbered(items, n) => List::Numbered(copy_list_items(items), *n),
        }
    }
}

impl ListItem {
    pub fn deep_copy(&self) -> (r: ListItem)
        ensures
            r.view() == self.view(),
        decreases self,
    {
        match self {
            ListItem::Text(bs, nested) => {
                let n = match nested {
                    Some(l) => Some(l.deep_copy()),
                    None => None,
                };
                ListItem::Text(copy_blocks(bs), n)
            },
            ListItem::Task(bs, c, nested) => {
                let n = match nested {
                    Some(l) => Some(l.deep_copy()),
                    None => None,
                };
                ListItem::Task(copy_blocks(bs), *c, n)
            },
        }
    }
}

impl List {
    pub open spec fn view(&self) -> SpecList
        decreases self,
    {
        match self {
            List::Plain(items) => SpecList::Plain(view_list_items(items@)),
            List::Numbered(items, n) => SpecList::Numbered(view_list_items(items@), *n),
        }
    }
}

impl ListItem {
    pub open spec fn view(&self) -> SpecListItem
        decreases self,
    {
        match self {
            ListItem::Text(bs, nested) => SpecListItem::Text(
                view_blocks(bs@),
                match nested {
                    Some(l) => Some(l.view()),
                    None => None,
                },
            ),
            ListItem::Task(bs, c, nested) => SpecListItem::Task(
                view_blocks(bs@),
                *c,
                match nested {
                    Some(l) => Some(l.view()),
                    None => None,
                },
            ),
        }
    }
}

/// Nodos have explicit fields for their metadata (title, tags, dates);
/// the rest of the content is a sequence of blocks.
#[derive(Debug, PartialEq, Default)]
pub struct Nodo {
    tags: Vec<String>,
    start_date: Option<Date>,
    due_date: Option<Date>,
    title: Text,
    blocks: Vec<Block>,
}

impl Nodo {
    pub closed spec fn view(&self) -> SpecNodo {
        SpecNodo {
            tags: view_strings(self.tags@),
            start_date: self.start_date,
            due_date: self.due_date,
            title: self.title.view(),
            blocks: view_blocks(self.blocks@),
        }
    }

    /// A nodo made of its parts.
    pub(crate) fn from_parts(
        tags: Vec<String>,
        start_date: Option<Date>,
        due_date: Option<Date>,
        title: Text,
        blocks: Vec<Block>,
    ) -> (r: Nodo)
        ensures
            r.view() == (SpecNodo {
                tags: view_strings(tags@),
                start_date,
                due_date,
                title: title.view(),
                blocks: view_blocks(blocks@),
            }),
    {
        Nodo { tags, start_date, due_date, title, blocks }
    }

    /// The parts of a nodo.
    pub(crate) fn into_parts(self) -> (r: (Vec<String>, Option<Date>, Option<Date>, Text, Vec<Block>))
        ensures
            self.view() == (SpecNodo {
                tags: view_strings(r.0@),
                start_date: r.1,
                due_date: r.2,
                title: r.3.view(),
                blocks: view_blocks(r.4@),
            }),
    {
        (self.tags, self.start_date, self.due_date, self.title, self.blocks)
    }

    /// Sorts the tasks of each plain list: open tasks ahead of completed ones,
    /// text items kept in place, equal items in their order.
    pub fn sort_tasks(&mut self)
        ensures
            final(self).view() == (SpecNodo { blocks: sort_blocks(old(self).view().blocks), ..old(self).view() }),
    {
        let ghost bv = view_blocks(self.blocks@);
        let mut blocks: Vec<Block> = Vec::new();
        std::mem::swap(&mut self.blocks, &mut blocks);
        let n = blocks.len();
        let mut out: Vec<Block> = Vec::new();
        let mut i: usize = 0;
        while blocks.len() > 0
            invariant
                i + blocks@.len() == n,
                n == bv.len(),
                view_blocks(blocks@) =~= bv.subrange(i as int, n as int),
                out@.len() == i,
                forall|j: int| 0 <= j < i ==> (#[trigger] out@[j]).view() == sort_blocks(bv)[j],
            decreases blocks.len(),
        {
            let ghost before = blocks@;
            assert(view_blocks(before)[0] == before[0].view());
            assert(view_blocks(before)[0] == bv[i as int]);
            let b = blocks.remove(0);
            assert(blocks@ =~= before.subrange(1, before.len() as int));
            assert forall|k: int| 0 <= k < blocks@.len() implies view_blocks(blocks@)[k] == bv.subrange(
                i + 1,
                n as int,
            )[k] by {
                assert(view_blocks(before)[k + 1] == bv.subrange(i as int, n as int)[k + 1]);
            }
            assert(view_blocks(blocks@) =~= bv.subrange(i + 1, n as int));
            let sorted = match b {
                Block::List(List::Plain(items)) => Block::List(List::Plain(sort_list_items(items))),
                other => other,
            };
            out.push(sorted);
            i = i + 1;
        }
        assert(view_blocks(out@) =~= sort_blocks(bv));
        self.blocks = out;
    }

    pub fn tags(&self) -> (r: &[String])
        ensures
            view_strings(r@) == self.view().tags,
    {
        self.tags.as_slice()
    }

    pub fn start_date(&self) -> (r: Option<Date>)
        ensures
            r == self.view().start_date,
    {
        self.start_date
    }

    pub fn due_date(&self) -> (r: Option<Date>)
        ensures
            r == self.view().due_date,
    {
        self.due_date
    }

    pub fn title(&self) -> (r: &Text)
        ensures
            r.view() == self.view().title,
    {
        &self.title
    }

    pub fn blocks(&self) -> (r: &[Block])
        ensures
            view_blocks(r@) == self.view().blocks,
    {
        self.blocks.as_slice()
    }
}

/// Whether `a` goes before `b` when tasks are sorted: an open task before a
/// completed one; any other pair keeps its order.
pub open spec fn task_before(a: SpecListItem, b: SpecListItem) -> bool {
    (a matches SpecListItem::Task(_, false, _)) && (b matches SpecListItem::Task(_, true, _))
}

/// `x` inserted at the end of `s`, then moved before the items it goes before.
pub open spec fn insert_item(s: Seq<SpecListItem>, x: SpecListItem) -> Seq<SpecListItem>
    decreases s.len(),
{
    if s.len() > 0 && task_before(x, s.last()) {
        insert_item(s.drop_last(), x).push(s.last())
    } else {
        s.push(x)
    }
}

/// The items stably sorted by insertion: open tasks move ahead of completed
/// tasks, and text items stay where they are.
pub open spec fn sort_items(s: Seq<SpecListItem>) -> Seq<SpecListItem>
    decreases s.len(),
{
    if s.len() == 0 {
        Seq::empty()
    } else {
        insert_item(sort_items(s.drop_last()), s.last())
    }
}

/// The blocks with the items of each plain list sorted; numbered lists keep
/// their order.
pub open spec fn sort_blocks(bs: Seq<SpecBlock>) -> Seq<SpecBlock> {
    Seq::new(
        bs.len(),
        |i: int|
            match bs[i] {
                SpecBlock::List(SpecList::Plain(items)) => SpecBlock::List(
                    SpecList::Plain(sort_items(items)),
                ),
                b => b,
            },
    )
}

pub open spec fn reversed(s: Seq<SpecListItem>) -> Seq<SpecListItem> {
    Seq::new(s.len(), |i: int| s[s.len() - 1 - i])
}

fn goes_before(a: &ListItem, b: &ListItem) -> (r: bool)
    ensures
        r == task_before(a.view(), b.view()),
{
    match (a, b) {
        (ListItem::Task(_, false, _), ListItem::Task(_, true, _)) => true,
        _ => false,
    }
}

/// Sorts the items of a list by insertion.
fn sort_list_items(items: Vec<ListItem>) -> (r: Vec<ListItem>)
    ensures
        view_list_items(r@) == sort_items(view_list_items(items@)),
{
    let ghost iv = view_list_items(items@);
    let mut items = items;
    let mut out: Vec<ListItem> = Vec::new();
    let mut i: usize = 0;
    let n = items.len();
    assert(iv.subrange(0, 0) =~= Seq::<SpecListItem>::empty());
    assert(view_list_items(out@) =~= sort_items(iv.subrange(0, 0)));
    while items.len() > 0
        invariant
            i + items@.len() == n,
            n == iv.len(),
            view_list_items(items@) =~= iv.subrange(i as int, n as int),
            view_list_items(out@) == sort_items(iv.subrange(0, i as int)),
        decreases items.len(),
    {
        let ghost before = items@;
        assert(view_list_items(before)[0] == before[0].view());
        assert(view_list_items(before)[0] == iv[i as int]);
        let x = items.remove(0);
        assert(items@ =~= before.subrange(1, before.len() as int));
        assert forall|k: int| 0 <= k < items@.len() implies view_list_items(items@)[k] == iv.subrange(
            i + 1,
            n as int,
        )[k] by {
            assert(view_list_items(before)[k + 1] == iv.subrange(i as int, n as int)[k + 1]);
        }
        assert(view_list_items(items@) =~= iv.subrange(i + 1, n as int));
        let ghost s0 = view_list_items(out@);
        let mut held: Vec<ListItem> = Vec::new();
        assert(view_list_items(held@) =~= Seq::empty());
        assert(reversed(Seq::empty()) =~= Seq::<SpecListItem>::empty());
        assert(insert_item(s0, x.view()) =~= insert_item(view_list_items(out@), x.view()) + reversed(
            view_list_items(held@),
        ));
        while out.len() > 0 && goes_before(&x, &out[out.len() - 1])
            invariant
                insert_item(s0, x.view()) == insert_item(view_list_items(out@), x.view()) + reversed(
                    view_list_items(held@),
                ),
            decreases out.len(),
        {
            let ghost ov = view_list_items(out@);
            let ghost hv = view_list_items(held@);
            let y = out.pop().unwrap();
            assert(ov.last() == y.view());
            assert(ov.drop_last() =~= view_list_items(out@));
            held.push(y);
            assert(view_list_items(held@) =~= hv.push(y.view()));
            assert(reversed(hv.push(y.view())) =~= seq![y.view()] + reversed(hv));
            assert(insert_item(ov, x.view()) == insert_item(ov.drop_last(), x.view()).push(ov.last()));
            assert(insert_item(s0, x.view()) =~= insert_item(view_list_items(out@), x.view())
                + reversed(view_list_items(held@)));
        }
        let ghost ov = view_list_items(out@);
        out.push(x);
        assert(view_list_items(out@) =~= insert_item(ov, x.view()));
        while held.len() > 0
            invariant
                insert_item(s0, x.view()) == view_list_items(out@) + reversed(view_list_items(held@)),
            decreases held.len(),
        {
            let ghost ov2 = view_list_items(out@);
            let ghost hv = view_list_items(held@);
            let y = held.pop().unwrap();
            assert(hv.last() == y.view());
            assert(hv.drop_last() =~= view_list_items(held@));
            out.push(y);
            assert(view_list_items(out@) =~= ov2.push(y.view()));
            assert(reversed(hv) =~= seq![y.view()] + reversed(hv.drop_last()));
            assert(insert_item(s0, x.view()) =~= view_list_items(out@) + reversed(view_list_items(held@)));
        }
        assert(reversed(view_list_items(held@)) =~= Seq::<SpecListItem>::empty());
        assert(iv.subrange(0, i + 1).drop_last() =~= iv.subrange(0, i as int));
        assert(view_list_items(out@) =~= sort_items(iv.subrange(0, i + 1)));
        i = i + 1;
    }
    assert(iv.subrange(0, n as int) =~= iv);
    out
}

/// Accumulates the parts of a nodo, then hands it over whole.
#[derive(Debug, Default)]
pub struct NodoBuilder {
    nodo: Nodo,
}

impl NodoBuilder {
    pub closed spec fn view(&self) -> SpecNodo {
        self.nodo.view()
    }

    /// A builder holding an empty nodo.
    pub fn new() -> (r: NodoBuilder)
        ensures
            r.view() == (SpecNodo {
                tags: Seq::empty(),
                start_date: None,
                due_date: None,
                title: Seq::empty(),
                blocks: Seq::empty(),
            }),
    {
        let r = NodoBuilder {
            nodo: Nodo {
                tags: Vec::new(),
                start_date: None,
                due_date: None,
                title: Text { inner: Vec::new() },
                blocks: Vec::new(),
            },
        };
        assert(r.view().tags =~= Seq::empty());
        assert(r.view().title =~= Seq::empty());
        assert(r.view().blocks =~= Seq::empty());
        r
    }

    pub fn build(self) -> (r: Nodo)
        ensures
            r.view() == self.view(),
    {
        self.nodo
    }

    pub fn tags(&mut self, tags: Vec<String>) -> (r: &mut Self)
        ensures
            r.view() == (SpecNodo { tags: view_strings(tags@), ..old(self).view() }),
            *final(self) == *final(r),
    {
        self.nodo.tags = tags;
        self
    }

    pub fn start_date(&mut self, start_date: Date) -> (r: &mut Self)
        ensures
            r.view() == (SpecNodo { start_date: Some(start_date), ..old(self).view() }),
            *final(self) == *final(r),
    {
        self.nodo.start_date = Some(start_date);
        self
    }

    pub fn due_date(&mut self, due_date: Date) -> (r: &mut Self)
        ensures
            r.view() == (SpecNodo { due_date: Some(due_date), ..old(self).view() }),
            *final(self) == *final(r),
    {
        self.nodo.due_date = Some(due_date);
        self
    }

    pub fn title(&mut self, title: Text) -> (r: &mut Self)
        ensures
            r.view() == (SpecNodo { title: title.view(), ..old(self).view() }),
            *final(self) == *final(r),
    {
        self.nodo.title = title;
        self
    }

    pub fn block(&mut self, block: Block) -> (r: &mut Self)
        ensures
            r.view() == (SpecNodo {
                blocks: old(self).view().blocks.push(block.view()),
                ..old(self).view()
            }),
            *final(self) == *final(r),
    {
        self.nodo.blocks.push(block);
        assert(view_blocks(self.nodo.blocks@) =~= view_blocks(old(self).nodo.blocks@).push(block.view()));
        self
    }
}

} // verus!
