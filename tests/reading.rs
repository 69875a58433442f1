use nodo::config::Config;
use nodo::error::ReadError;
use nodo::events::{markdown_events, Event, Tag};
use nodo::markdown::Markdown;
use nodo::nodo::{Block, Date, List, ListItem, Nodo, NodoBuilder, Text, TextItem};
use nodo::reader::read_events;

fn read(text: &str) -> Result<Nodo, ReadError> {
    Markdown.read(NodoBuilder::default(), text, &Config::new())
}

fn write(nodo: &Nodo) -> String {
    let mut s = String::new();
    Markdown.write(nodo, &mut s, &Config::new()).unwrap();
    s
}

fn para(items: Vec<TextItem>) -> Vec<Block> {
    vec![Block::Paragraph(vec![items.into()])]
}

fn first_list(nodo: &Nodo) -> &List {
    match &nodo.blocks()[0] {
        Block::List(l) => l,
        other => panic!("not a list: {:?}", other),
    }
}

#[test]
fn frontmatter_absence_is_not_an_error() {
    let nodo = read("# A heading\n\nsome text\n").unwrap();
    assert!(nodo.tags().is_empty());
    assert_eq!(nodo.start_date(), None);
    assert_eq!(nodo.due_date(), None);
    assert_eq!(nodo.title(), &Text::from(vec![TextItem::plain("A heading")]));
    assert_eq!(
        nodo.blocks(),
        &[Block::Paragraph(vec![vec![TextItem::plain("some text")].into()])]
    );
}

#[test]
fn frontmatter_is_read() {
    let nodo = read("---\ntags: a, b c ,d\nstart_date: 01/02/2020\n---\n\n# t\n").unwrap();
    assert_eq!(nodo.tags(), &["a".to_string(), "b c".to_string(), "d".to_string()]);
    assert_eq!(nodo.start_date(), Some(Date::from_ymd(2020, 2, 1)));
    assert_eq!(nodo.due_date(), None);
}

#[test]
fn unparseable_date_is_left_unset() {
    let nodo = read("---\nstart_date: not a date\ndue_date: 03/04/2021\n---\n\n# t\n").unwrap();
    assert_eq!(nodo.start_date(), None);
    assert_eq!(nodo.due_date(), Some(Date::from_ymd(2021, 4, 3)));
}

#[test]
fn empty_first_tag_keeps_no_tags() {
    let nodo = read("---\ntags: , b\n---\n\n# t\n").unwrap();
    assert!(nodo.tags().is_empty());
}

#[test]
fn invalid_frontmatter_element_is_an_error() {
    let r = read("---\ntags: a\n\nsomething else\n---\n\n# t\n");
    assert!(matches!(r, Err(ReadError::InvalidElement(_))), "{:?}", r);
}

#[test]
fn unhandled_body_element_is_an_error() {
    let r = read("# t\n\n<div>raw</div>\n");
    assert!(matches!(r, Err(ReadError::Unhandled(_))), "{:?}", r);
}

#[test]
fn unfinished_stream_is_an_error() {
    let events = vec![
        Event::Start(Tag::Heading(1)),
        Event::Text("t".to_string()),
        Event::End(Tag::Heading(1)),
        Event::Start(Tag::Paragraph),
        Event::Text("x".to_string()),
    ];
    let r = read_events(NodoBuilder::default(), &events, "%d/%m/%Y");
    assert!(matches!(r, Err(ReadError::Unhandled(_))), "{:?}", r);
}

#[test]
fn document_without_heading_has_empty_title() {
    let nodo = read("just text\n").unwrap();
    assert!(nodo.title().inner.is_empty());
    assert_eq!(nodo.blocks().len(), 1);
}

#[test]
fn reading_appends_to_the_builder() {
    let mut builder = NodoBuilder::default();
    builder.block(Block::Rule);
    let nodo = Markdown.read(builder, "# t\n\ntext\n", &Config::new()).unwrap();
    assert_eq!(nodo.blocks().len(), 2);
    assert_eq!(nodo.blocks()[0], Block::Rule);
}

#[test]
fn checkbox_whitespace_is_normalized() {
    let expected = |done: bool, text: &str| ListItem::Task(para(vec![TextItem::plain(text)]), done, None);
    let nodo = read("# t\n\n- [   ] open\n- [  x   ] done\n- [] empty\n- [X]   upper\n").unwrap();
    assert_eq!(
        first_list(&nodo),
        &List::Plain(vec![
            expected(false, "open"),
            expected(true, "done"),
            expected(false, "empty"),
            expected(true, "upper"),
        ])
    );
    let canonical = read("# t\n\n- [ ] open\n- [x] done\n- [ ] empty\n- [x] upper\n").unwrap();
    assert_eq!(first_list(&nodo), first_list(&canonical));
}

#[test]
fn bracket_without_checkbox_stays_text() {
    let nodo = read("# t\n\n- [a] not a task\n").unwrap();
    match first_list(&nodo) {
        List::Plain(items) => assert!(matches!(items[0], ListItem::Text(_, None))),
        other => panic!("{:?}", other),
    }
}

#[test]
fn numbered_list_index_is_preserved() {
    let nodo = read("# t\n\n3. first\n7. second\n1. third\n").unwrap();
    assert!(matches!(first_list(&nodo), List::Numbered(items, 3) if items.len() == 3));
    assert_eq!(write(&nodo), "# t\n\n3. first\n4. second\n5. third\n");
    assert_eq!(read(&write(&nodo)).unwrap(), nodo);
}

#[test]
fn numbered_list_writes_large_indices() {
    let mut builder = NodoBuilder::default();
    builder.block(Block::List(List::Numbered(
        vec![
            ListItem::Text(para(vec![TextItem::plain("a")]), None),
            ListItem::Text(para(vec![TextItem::plain("b")]), None),
        ],
        4294967295,
    )));
    assert_eq!(write(&builder.build()), "# \n\n4294967295. a\n4294967296. b\n");
}

#[test]
fn events_of_markdown_text() {
    let events = markdown_events("# Hi *there*\n");
    assert_eq!(
        events,
        vec![
            Event::Start(Tag::Heading(1)),
            Event::Text("Hi ".to_string()),
            Event::Start(Tag::Emphasis),
            Event::Text("there".to_string()),
            Event::End(Tag::Emphasis),
            Event::End(Tag::Heading(1)),
        ]
    );
}

#[test]
fn links_code_and_quotes_round_trip() {
    let text = "# t\n\nsee [the site](http://x.y) and `code`\n\n> quoted\n> text\n\n```rust\nfn main() {}\n```\n";
    let nodo = read(text).unwrap();
    assert_eq!(
        nodo.blocks()[0],
        Block::Paragraph(vec![vec![
            TextItem::plain("see "),
            TextItem::link("the site", "http://x.y"),
            TextItem::plain(" and "),
            TextItem::code("code"),
        ]
        .into()])
    );
    assert_eq!(write(&nodo), text);
    assert_eq!(read(&write(&nodo)).unwrap(), nodo);
}

#[test]
fn empty_text_reads_empty_nodo() {
    let nodo = read("").unwrap();
    assert_eq!(nodo, NodoBuilder::default().build());
    assert_eq!(write(&nodo), "# \n\n");
    assert_eq!(read(&write(&nodo)).unwrap(), nodo);
}

#[test]
fn undated_format_leaves_out_date_lines() {
    let mut b = NodoBuilder::default();
    b.due_date(Date::from_ymd(2015, 4, 16)).tags(vec!["x".to_string()]);
    let nodo = b.build();
    let mut config = Config::new();
    config.date_format = "%Q".to_string();
    let mut s = String::new();
    Markdown.write(&nodo, &mut s, &config).unwrap();
    assert_eq!(s, "---\ntags: x\n---\n\n# \n\n");
    config.date_format = "%Y".to_string();
    let mut s = String::new();
    Markdown.write(&nodo, &mut s, &config).unwrap();
    assert_eq!(s, "---\ntags: x\ndue_date: 2015\n---\n\n# \n\n");
}

#[test]
fn only_a_level_one_heading_becomes_the_title() {
    let nodo = read("## Sub\n\ntext\n").unwrap();
    assert!(nodo.title().inner.is_empty());
    assert_eq!(nodo.blocks()[0], Block::Heading(vec![TextItem::plain("Sub")].into(), 2));
    assert_eq!(write(&nodo), "# \n\n## Sub\n\ntext\n");
    assert_eq!(read(&write(&nodo)).unwrap(), nodo);
}

#[test]
fn canonical_text_tokenizes_to_its_encoding() {
    let text = "---\ntags: a, b\n---\n\n# Title\n\nOne *two*\nthree\n\n- [x] done\n    - sub\n- item\n\n> quoted\n\n---\n\n```rust\nfn main() {}\n```\n";
    let nodo = read(text).unwrap();
    assert_eq!(write(&nodo), text);
    let t = |s: &str| Event::Text(s.to_string());
    let expected = vec![
        Event::Rule,
        Event::Start(Tag::Heading(2)),
        t("tags: a, b"),
        Event::End(Tag::Heading(2)),
        Event::Start(Tag::Heading(1)),
        t("Title"),
        Event::End(Tag::Heading(1)),
        Event::Start(Tag::Paragraph),
        t("One "),
        Event::Start(Tag::Emphasis),
        t("two"),
        Event::End(Tag::Emphasis),
        Event::SoftBreak,
        t("three"),
        Event::End(Tag::Paragraph),
        Event::Start(Tag::List(None)),
        Event::Start(Tag::Item),
        Event::TaskListMarker(true),
        t("done"),
        Event::Start(Tag::List(None)),
        Event::Start(Tag::Item),
        t("sub"),
        Event::End(Tag::Item),
        Event::End(Tag::List(None)),
        Event::End(Tag::Item),
        Event::Start(Tag::Item),
        t("item"),
        Event::End(Tag::Item),
        Event::End(Tag::List(None)),
        Event::Start(Tag::BlockQuote),
        Event::Start(Tag::Paragraph),
        t("quoted"),
        Event::End(Tag::Paragraph),
        Event::End(Tag::BlockQuote),
        Event::Rule,
        Event::Start(Tag::CodeBlock("rust".to_string())),
        t("fn main() {}\n"),
        Event::End(Tag::CodeBlock("rust".to_string())),
    ];
    assert_eq!(markdown_events(text), expected);
}

#[test]
fn code_lines_keep_their_indentation() {
    let text = "# t\n\n```\n  indented\nplain\n    deeper\n```\n";
    let nodo = read(text).unwrap();
    assert_eq!(write(&nodo), text);
    assert_eq!(read(&write(&nodo)).unwrap(), nodo);
}

#[test]
fn nested_quotes_are_written_once() {
    let text = "# t\n\n> > inner\n>\n> outer\n";
    let nodo = read(text).unwrap();
    assert_eq!(
        nodo.blocks()[0],
        Block::BlockQuote(vec![
            Block::BlockQuote(vec![Block::Paragraph(vec![vec![TextItem::plain("inner")].into()])]),
            Block::Paragraph(vec![vec![TextItem::plain("outer")].into()]),
        ])
    );
    assert_eq!(write(&nodo), text);
    let again = read(&write(&nodo)).unwrap();
    assert_eq!(again, nodo);
    assert_eq!(write(&again), write(&nodo));
}

#[test]
fn quote_as_first_block_of_an_item() {
    let text = "# t\n\n- > quoted\n- b\n";
    let nodo = read(text).unwrap();
    assert_eq!(read(&write(&nodo)).unwrap(), nodo);
    assert_eq!(write(&read(&write(&nodo)).unwrap()), write(&nodo));
    assert!(write(&nodo).starts_with("# t\n\n- > quoted\n"));
}

#[test]
fn invalid_frontmatter_names_the_element() {
    let r = read("---\ntags: a\n\nsomething else\n---\n\n# t\n");
    assert_eq!(
        r,
        Err(ReadError::InvalidElement(
            "Invalid element in frontmatter: Start(Paragraph)".to_string()
        ))
    );
}

#[test]
fn first_level_one_heading_is_the_title() {
    let nodo = read("intro\n\n## Sub\n\n# Title\n\n# Second\n").unwrap();
    assert_eq!(nodo.title(), &Text::from(vec![TextItem::plain("Title")]));
    assert_eq!(nodo.blocks().len(), 3);
    assert_eq!(nodo.blocks()[2], Block::Heading(vec![TextItem::plain("Second")].into(), 1));
    assert_eq!(read(&write(&nodo)).unwrap(), nodo);
}

#[test]
fn hard_breaks_end_lines() {
    let nodo = read("# t\n\nline one  \nline two\n").unwrap();
    assert_eq!(
        nodo.blocks()[0],
        Block::Paragraph(vec![
            vec![TextItem::plain("line one")].into(),
            vec![TextItem::plain("line two")].into(),
        ])
    );
}

#[test]
fn events_are_described() {
    assert_eq!(Event::Start(Tag::Heading(2)).describe(), "Start(Heading(2))");
    assert_eq!(Event::End(Tag::List(Some(3))).describe(), "End(List(3))");
    assert_eq!(Event::Text("x".to_string()).describe(), "Text(x)");
    assert_eq!(Event::TaskListMarker(false).describe(), "TaskListMarker(false)");
    assert_eq!(Event::Start(Tag::Link("u".to_string())).describe(), "Start(Link(u))");
}
