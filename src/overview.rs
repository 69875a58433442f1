//! The tree of projects (directories) and nodos (files) that overviews show,
//! with completion counts summed up the tree.
use vstd::prelude::*;
use crate::dates::{format_date, formatted_date};
use crate::nodo::{Nodo, SpecTextItem, Text, TextItem};
use crate::show::{completion, get_num_complete, saturated};

verus! {

/// One entry of an overview: a project with its entries, or a nodo.
#[derive(Debug, Default)]
pub struct DirTree {
    pub depth: usize,
    pub complete: u32,
    pub total: u32,
    pub title: String,
    pub due_date: String,
    /// The file name of the entry
    pub name: String,
    pub is_project: bool,
    pub children: Vec<DirTree>,
}

/// The completed tasks of the entries, summed.
pub open spec fn sum_complete(ts: Seq<DirTree>) -> nat
    decreases ts.len(),
{
    if ts.len() == 0 {
        0
    } else {
        sum_complete(ts.drop_last()) + ts.last().complete as nat
    }
}

/// The tasks of the entries, summed.
pub open spec fn sum_total(ts: Seq<DirTree>) -> nat
    decreases ts.len(),
{
    if ts.len() == 0 {
        0
    } else {
        sum_total(ts.drop_last()) + ts.last().total as nat
    }
}

/// The completed and all tasks of the entries, each sum stopping at `u32::MAX`.
pub fn aggregate(trees: &Vec<DirTree>) -> (r: (u32, u32))
    ensures
        r == (saturated(sum_complete(trees@)), saturated(sum_total(trees@))),
{
    let mut complete: u32 = 0;
    let mut total: u32 = 0;
    let mut i: usize = 0;
    while i < trees.len()
        invariant
            i <= trees.len(),
            complete == saturated(sum_complete(trees@.subrange(0, i as int))),
            total == saturated(sum_total(trees@.subrange(0, i as int))),
        decreases trees.len() - i,
    {
        assert(trees@.subrange(0, i + 1).drop_last() =~= trees@.subrange(0, i as int));
        let c = trees[i].complete;
        let t = trees[i].total;
        complete = if complete as u64 + c as u64 > u32::MAX as u64 {
            u32::MAX
        } else {
            complete + c
        };
        total = if total as u64 + t as u64 > u32::MAX as u64 {
            u32::MAX
        } else {
            total + t
        };
        i = i + 1;
    }
    assert(trees@.subrange(0, i as int) =~= trees@);
    (complete, total)
}

/// The words of a text without their markup, separated by spaces.
pub open spec fn title_words(t: Seq<SpecTextItem>) -> Seq<char>
    decreases t.len(),
{
    if t.len() == 0 {
        Seq::empty()
    } else if t.len() == 1 {
        raw_text(t[0])
    } else {
        title_words(t.drop_last()) + " "@ + raw_text(t.last())
    }
}

pub open spec fn raw_text(it: SpecTextItem) -> Seq<char> {
    match it {
        SpecTextItem::Plain(s) => s,
        SpecTextItem::Styled(s, _) => s,
        SpecTextItem::Link(name, _) => name,
    }
}

/// The words of a title without markup, separated by spaces.
pub fn title_string(t: &Text) -> (r: String)
    ensures
        r@ == title_words(t.view()),
{
    let ghost tv = t.view();
    let mut s = String::new();
    let mut i: usize = 0;
    assert(tv.subrange(0, 0) =~= Seq::<SpecTextItem>::empty());
    while i < t.inner.len()
        invariant
            i <= t.inner.len(),
            tv == t.view(),
            tv.len() == t.inner@.len(),
            s@ == title_words(tv.subrange(0, i as int)),
        decreases t.inner.len() - i,
    {
        if i > 0 {
            s.append(" ");
        }
        let word = match &t.inner[i] {
            TextItem::PlainText(w) => w,
            TextItem::StyledText(w, _) => w,
            TextItem::Link(w, _) => w,
        };
        s.append(word.as_str());
        let ghost sub = tv.subrange(0, i + 1);
        assert(sub.drop_last() =~= tv.subrange(0, i as int));
        if i == 0 {
            assert(sub =~= seq![tv[0]]);
        }
        assert(s@ =~= title_words(sub));
        i = i + 1;
    }
    assert(tv.subrange(0, i as int) =~= tv);
    s
}

impl DirTree {
    /// A project whose entries are `children`: its counts are their sums.
    pub fn project(name: String, depth: usize, children: Vec<DirTree>) -> (r: DirTree)
        ensures
            r.is_project,
            r.name == name,
            r.depth == depth,
            r.children == children,
            r.complete == saturated(sum_complete(children@)),
            r.total == saturated(sum_total(children@)),
            r.title@.len() == 0,
            r.due_date@.len() == 0,
    {
        let (complete, total) = aggregate(&children);
        DirTree {
            depth,
            complete,
            total,
            title: String::new(),
            due_date: String::new(),
            name,
            is_project: true,
            children,
        }
    }

    /// A nodo's entry: the counts of its top-level tasks, its title's words,
    /// and its due date in the date format (empty if it has none or it cannot
    /// be written).
    pub fn nodo(name: String, depth: usize, nodo: &Nodo, date_format: &str) -> (r: DirTree)
        ensures
            !r.is_project,
            r.name == name,
            r.depth == depth,
            r.children@.len() == 0,
            r.complete == saturated(completion(nodo.view().blocks).0),
            r.total == saturated(completion(nodo.view().blocks).1),
            r.title@ == title_words(nodo.view().title),
            match nodo.view().due_date {
                Some(d) => match formatted_date(d, date_format@) {
                    Some(t) => r.due_date@ == t,
                    None => r.due_date@.len() == 0,
                },
                None => r.due_date@.len() == 0,
            },
    {
        let (complete, total) = get_num_complete(nodo);
        let title = title_string(nodo.title());
        let due_date = match nodo.due_date() {
            Some(d) => match format_date(d, date_format) {
                Some(t) => t,
                None => String::new(),
            },
            None => String::new(),
        };
        DirTree {
            depth,
            complete,
            total,
            title,
            due_date,
            name,
            is_project: false,
            children: Vec::new(),
        }
    }
}

} // verus!
