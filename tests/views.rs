use nodo::cli::{Show, Target};
use nodo::config::Config;
use nodo::markdown::Markdown;
use nodo::nodo::{Block, List, ListItem, Nodo, NodoBuilder, TextItem};
use nodo::overview::{aggregate, title_string, DirTree};
use nodo::show::{filter_list, get_num_complete, trim_list};

fn para(text: &str) -> Vec<Block> {
    vec![Block::Paragraph(vec![vec![TextItem::plain(text)].into()])]
}

fn task(text: &str, done: bool, nested: Option<List>) -> ListItem {
    ListItem::Task(para(text), done, nested)
}

fn text(t: &str, nested: Option<List>) -> ListItem {
    ListItem::Text(para(t), nested)
}

fn deep_list() -> List {
    List::Plain(vec![
        task(
            "a",
            false,
            Some(List::Plain(vec![text(
                "b",
                Some(List::Numbered(vec![task("c", true, None)], 2)),
            )])),
        ),
        text("d", None),
    ])
}

fn nested_of(item: &ListItem) -> &Option<List> {
    match item {
        ListItem::Text(_, n) => n,
        ListItem::Task(_, _, n) => n,
    }
}

fn items(l: &List) -> &Vec<ListItem> {
    match l {
        List::Plain(i) => i,
        List::Numbered(i, _) => i,
    }
}

#[test]
fn trim_at_zero_drops_all_nesting() {
    let t = trim_list(&deep_list(), Some(0));
    assert_eq!(items(&t).len(), 2);
    for item in items(&t) {
        assert!(nested_of(item).is_none());
    }
    assert_eq!(items(&t)[0], task("a", false, None));
}

#[test]
fn trim_keeps_sublists_down_to_depth() {
    let t = trim_list(&deep_list(), Some(1));
    assert_eq!(
        t,
        List::Plain(vec![
            task("a", false, Some(List::Plain(vec![text("b", None)]))),
            text("d", None),
        ])
    );
    assert_eq!(trim_list(&deep_list(), Some(2)), deep_list());
    assert_eq!(trim_list(&deep_list(), None), deep_list());
}

#[test]
fn filter_keeps_matching_tasks_and_all_text() {
    let l = List::Numbered(
        vec![
            task("open", false, None),
            task("done", true, Some(List::Plain(vec![task("inner open", false, None)]))),
            text("note", Some(List::Plain(vec![task("inner done", true, None)]))),
        ],
        5,
    );
    assert_eq!(
        filter_list(&l, Some(true)),
        List::Numbered(
            vec![
                task("done", true, Some(List::Plain(vec![]))),
                text("note", Some(List::Plain(vec![task("inner done", true, None)]))),
            ],
            5
        )
    );
    assert_eq!(
        filter_list(&l, Some(false)),
        List::Numbered(
            vec![task("open", false, None), text("note", Some(List::Plain(vec![])))],
            5
        )
    );
    assert_eq!(filter_list(&l, None), l);
}

fn nodo_with(blocks: Vec<Block>) -> Nodo {
    let mut b = NodoBuilder::default();
    for block in blocks {
        b.block(block);
    }
    b.build()
}

#[test]
fn completion_counting_is_shallow() {
    let nested = List::Plain(vec![task("x", true, None), task("y", true, None), task("z", false, None)]);
    let nodo = nodo_with(vec![Block::List(List::Plain(vec![
        task("complete", true, Some(nested)),
        task("open", false, None),
    ]))]);
    assert_eq!(get_num_complete(&nodo), (1, 2));
}

#[test]
fn completion_counts_every_top_level_list_but_not_text() {
    let nodo = nodo_with(vec![
        Block::List(List::Plain(vec![task("a", true, None), text("b", None)])),
        Block::Rule,
        Block::List(List::Numbered(vec![task("c", false, None), task("d", true, None)], 1)),
    ]);
    assert_eq!(get_num_complete(&nodo), (2, 3));
    assert_eq!(get_num_complete(&nodo_with(vec![])), (0, 0));
}

fn leaf(name: &str, complete: usize, total: usize) -> DirTree {
    let mut list = Vec::new();
    for i in 0..total {
        list.push(task("t", i < complete, None));
    }
    let nodo = nodo_with(vec![Block::List(List::Plain(list))]);
    DirTree::nodo(name.to_string(), 1, &nodo, "%d/%m/%Y")
}

#[test]
fn directory_aggregation_sums_correctly() {
    let sub = DirTree::project("sub".to_string(), 0, vec![leaf("one.md", 1, 2), leaf("two.md", 0, 3)]);
    assert_eq!((sub.complete, sub.total), (1, 5));
    let root = vec![sub, leaf("three.md", 2, 2)];
    assert_eq!(aggregate(&root), (3, 7));
    let top = DirTree::project("root".to_string(), 0, root);
    assert_eq!((top.complete, top.total), (3, 7));
    assert!(top.is_project);
}

#[test]
fn nodo_entry_has_title_words_and_due_date() {
    let text = "---\ndue_date: 16/04/2015\n---\n\n# A *styled* [title](x)\n\n- [x] a\n- [ ] b\n";
    let nodo = Markdown
        .read(NodoBuilder::default(), text, &Config::new())
        .unwrap();
    assert_eq!(title_string(nodo.title()), "A  styled   title");
    let entry = DirTree::nodo("n.md".to_string(), 2, &nodo, "%Y-%m-%d");
    assert_eq!(entry.title, "A  styled   title");
    assert_eq!(entry.due_date, "2015-04-16");
    assert_eq!((entry.complete, entry.total), (1, 2));
    assert_eq!(entry.depth, 2);
    assert!(!entry.is_project);
    let bad_format = DirTree::nodo("n.md".to_string(), 2, &nodo, "%Q");
    assert_eq!(bad_format.due_date, "");
}

fn show(depth: Option<u32>, complete: Option<bool>) -> Show {
    Show { target: Target::default(), depth, complete }
}

const SECTIONS: &str = "# Title\n\nintro\n\n## First part\n\n- [ ] a\n    - [x] a1\n- [x] b\n\n## Second Part\n\nlast\n";

fn sections() -> Nodo {
    Markdown
        .read(NodoBuilder::default(), SECTIONS, &Config::new())
        .unwrap()
}

fn write(nodo: &Nodo) -> String {
    let mut s = String::new();
    Markdown.write(nodo, &mut s, &Config::new()).unwrap();
    s
}

#[test]
fn show_section_by_name_ignores_case() {
    let n = show(None, None).show_nodo(&sections(), "SECOND").unwrap();
    assert_eq!(write(&n), "# \n\n## First part\n\n## Second Part\n\nlast\n");
}

#[test]
fn show_section_by_number_with_filters() {
    let n = show(Some(0), Some(false)).show_nodo(&sections(), "2").unwrap();
    assert_eq!(write(&n), "# \n\n## First part\n\n- [ ] a\n");
}

#[test]
fn show_without_header_stops_at_first_heading() {
    let n = show(None, None).show_nodo(&sections(), "").unwrap();
    assert_eq!(write(&n), "# Title\n\nintro\n");
}

#[test]
fn show_unknown_header_is_none() {
    assert!(show(None, None).show_nodo(&sections(), "nothing").is_none());
}

#[test]
fn text_without_markup() {
    let t: nodo::nodo::Text = vec![TextItem::plain("a "), TextItem::strong("b"), TextItem::link("c", "u")].into();
    assert_eq!(t.to_string(), "a bc");
}
