//! The markup events that the document builder consumes, and the tokenizer
//! that produces them from text.
use vstd::prelude::*;
use pulldown_cmark::{Event as CmEvent, Options, Parser, Tag as CmTag};
use crate::text::{decimal, decimal_string};

verus! {

/// The element that a start or end event opens or closes.
#[derive(Debug, PartialEq)]
pub enum Tag {
    Paragraph,
    Heading(u32),
    BlockQuote,
    /// A fenced or indented code block, with its language (possibly empty)
    CodeBlock(String),
    /// A list, with the index of its first item when it is numbered
    List(Option<u64>),
    Item,
    Emphasis,
    Strong,
    Strikethrough,
    /// A link, with its destination
    Link(String),
    /// Any element that documents here do not hold (tables, images, footnotes)
    Other,
}

impl Tag {
    pub fn copy(&self) -> (r: Tag)
        ensures
            r == *self,
    {
        match self {
            Tag::Paragraph => Tag::Paragraph,
            Tag::Heading(l) => Tag::Heading(*l),
            Tag::BlockQuote => Tag::BlockQuote,
            Tag::CodeBlock(s) => Tag::CodeBlock(s.clone()),
            Tag::List(n) => Tag::List(*n),
            Tag::Item => Tag::Item,
            Tag::Emphasis => Tag::Emphasis,
            Tag::Strong => Tag::Strong,
            Tag::Strikethrough => Tag::Strikethrough,
            Tag::Link(u) => Tag::Link(u.clone()),
            Tag::Other => Tag::Other,
        }
    }
}

/// One event of the stream, without the element of a start or end.
#[derive(Debug, PartialEq)]
pub enum Token {
    Open,
    Close,
    Text(String),
    Code(String),
    SoftBreak,
    HardBreak,
    Rule,
    TaskListMarker(bool),
    Other,
}

/// One event of the stream.
#[derive(Debug, PartialEq)]
pub enum Event {
    Start(Tag),
    End(Tag),
    Text(String),
    /// Inline code
    Code(String),
    SoftBreak,
    HardBreak,
    Rule,
    /// A checkbox at the start of a list item: whether it is ticked
    TaskListMarker(bool),
    /// Raw markup or a footnote reference, which documents here do not hold
    Other,
}

/// The kinds of the events that the markdown tokenizer produces for a text.
pub uninterp spec fn cmark_tokens(text: Seq<char>) -> Seq<Token>;

/// For each event that the markdown tokenizer produces for a text, its element
/// (`Other` for an event that opens or closes none).
pub uninterp spec fn cmark_tags(text: Seq<char>) -> Seq<Tag>;

/// Relies on pulldown_cmark::Parser with every extension on: the kind of each
/// event, in order; the result depends on the text alone.
#[verifier::external_body]
fn token_stream(text: &str) -> (r: Vec<Token>)
    ensures
        r@ == cmark_tokens(text@),
{
    Parser::new_ext(text, Options::all()).map(|e| match e {
        CmEvent::Start(_) => Token::Open,
        CmEvent::End(_) => Token::Close,
        CmEvent::Text(s) => Token::Text(s.into_string()),
        CmEvent::Code(s) => Token::Code(s.into_string()),
        CmEvent::Html(_) | CmEvent::FootnoteReference(_) => Token::Other,
        CmEvent::SoftBreak => Token::SoftBreak,
        CmEvent::HardBreak => Token::HardBreak,
        CmEvent::Rule => Token::Rule,
        CmEvent::TaskListMarker(b) => Token::TaskListMarker(b),
    }).collect()
}

/// Relies on pulldown_cmark::Parser with every extension on: the element of
/// each start and end event, in the order of all events; the result depends
/// on the text alone.
#[verifier::external_body]
fn tag_stream(text: &str) -> (r: Vec<Tag>)
    ensures
        r@ == cmark_tags(text@),
{
    let tag = |t: CmTag| match t {
        CmTag::Paragraph => Tag::Paragraph,
        CmTag::Heading(l) => Tag::Heading(l),
        CmTag::BlockQuote => Tag::BlockQuote,
        CmTag::CodeBlock(s) => Tag::CodeBlock(s.into_string()),
        CmTag::List(n) => Tag::List(n),
        CmTag::Item => Tag::Item,
        CmTag::Emphasis => Tag::Emphasis,
        CmTag::Strong => Tag::Strong,
        CmTag::Strikethrough => Tag::Strikethrough,
        CmTag::Link(_, u, _) => Tag::Link(u.into_string()),
        _ => Tag::Other,
    };
    Parser::new_ext(text, Options::all()).map(|e| match e { CmEvent::Start(t) | CmEvent::End(t) => tag(t), _ => Tag::Other }).collect()
}

/// The event made of a token and its element.
pub open spec fn event_of(token: Token, tag: Tag) -> Event {
    match token {
        Token::Open => Event::Start(tag),
        Token::Close => Event::End(tag),
        Token::Text(s) => Event::Text(s),
        Token::Code(s) => Event::Code(s),
        Token::SoftBreak => Event::SoftBreak,
        Token::HardBreak => Event::HardBreak,
        Token::Rule => Event::Rule,
        Token::TaskListMarker(b) => Event::TaskListMarker(b),
        Token::Other => Event::Other,
    }
}

/// The events made of tokens and their elements, position by position.
pub open spec fn assemble(tokens: Seq<Token>, tags: Seq<Tag>) -> Seq<Event> {
    Seq::new(
        tokens.len(),
        |i: int|
            event_of(
                tokens[i],
                if i < tags.len() {
                    tags[i]
                } else {
                    Tag::Other
                },
            ),
    )
}

/// The events of a markdown text.
pub open spec fn markdown_events_of(text: Seq<char>) -> Seq<Event> {
    assemble(cmark_tokens(text), cmark_tags(text))
}

/// Tokenizes a markdown text into the events that the builder reads.
pub fn markdown_events(text: &str) -> (r: Vec<Event>)
    ensures
        r@ == markdown_events_of(text@),
{
    let tokens = token_stream(text);
    let tags = tag_stream(text);
    let ghost tags0 = tags@;
    let mut out: Vec<Event> = Vec::new();
    let mut i: usize = 0;
    while i < tokens.len()
        invariant
            i <= tokens.len(),
            tokens@ == cmark_tokens(text@),
            tags0 == cmark_tags(text@),
            tags@ == tags0,
            out@.len() == i,
            forall|k: int| 0 <= k < i ==> (#[trigger] out@[k]) == assemble(tokens@, tags0)[k],
        decreases tokens.len() - i,
    {
        let tag = if i < tags.len() {
            tags[i].copy()
        } else {
            Tag::Other
        };
        let e = match &tokens[i] {
            Token::Open => Event::Start(tag),
            Token::Close => Event::End(tag),
            Token::Text(s) => Event::Text(s.clone()),
            Token::Code(s) => Event::Code(s.clone()),
            Token::SoftBreak => Event::SoftBreak,
            Token::HardBreak => Event::HardBreak,
            Token::Rule => Event::Rule,
            Token::TaskListMarker(b) => Event::TaskListMarker(*b),
            Token::Other => Event::Other,
        };
        out.push(e);
        i = i + 1;
    }
    assert(out@ =~= assemble(tokens@, tags0));
    out
}

/// A name followed by what it holds in parentheses.
pub open spec fn wrap(name: Seq<char>, inner: Seq<char>) -> Seq<char> {
    name + "("@ + inner + ")"@
}

/// The name of an element, with what it holds.
pub open spec fn tag_text(t: Tag) -> Seq<char> {
    match t {
        Tag::Paragraph => "Paragraph"@,
        Tag::Heading(l) => wrap("Heading"@, decimal(l as nat)),
        Tag::BlockQuote => "BlockQuote"@,
        Tag::CodeBlock(s) => wrap("CodeBlock"@, s@),
        Tag::List(None) => "List"@,
        Tag::List(Some(n)) => wrap("List"@, decimal(n as nat)),
        Tag::Item => "Item"@,
        Tag::Emphasis => "Emphasis"@,
        Tag::Strong => "Strong"@,
        Tag::Strikethrough => "Strikethrough"@,
        Tag::Link(u) => wrap("Link"@, u@),
        Tag::Other => "Other"@,
    }
}

/// The name of an event, with what it holds.
pub open spec fn event_text(e: Event) -> Seq<char> {
    match e {
        Event::Start(t) => wrap("Start"@, tag_text(t)),
        Event::End(t) => wrap("End"@, tag_text(t)),
        Event::Text(s) => wrap("Text"@, s@),
        Event::Code(s) => wrap("Code"@, s@),
        Event::SoftBreak => "SoftBreak"@,
        Event::HardBreak => "HardBreak"@,
        Event::Rule => "Rule"@,
        Event::TaskListMarker(true) => "TaskListMarker(true)"@,
        Event::TaskListMarker(false) => "TaskListMarker(false)"@,
        Event::Other => "Other"@,
    }
}

fn wrapped(name: &str, inner: &str) -> (r: String)
    ensures
        r@ == name@ + "("@ + inner@ + ")"@,
{
    let mut s = String::from_str(name);
    s.append("(");
    s.append(inner);
    s.append(")");
    s
}

impl Tag {
    /// The name of the element, with what it holds.
    pub fn describe(&self) -> (r: String)
        ensures
            r@ == tag_text(*self),
    {
        match self {
            Tag::Paragraph => String::from_str("Paragraph"),
            Tag::Heading(l) => wrapped("Heading", decimal_string(*l as u128).as_str()),
            Tag::BlockQuote => String::from_str("BlockQuote"),
            Tag::CodeBlock(s) => wrapped("CodeBlock", s.as_str()),
            Tag::List(None) => String::from_str("List"),
            Tag::List(Some(n)) => wrapped("List", decimal_string(*n as u128).as_str()),
            Tag::Item => String::from_str("Item"),
            Tag::Emphasis => String::from_str("Emphasis"),
            Tag::Strong => String::from_str("Strong"),
            Tag::Strikethrough => String::from_str("Strikethrough"),
            Tag::Link(u) => wrapped("Link", u.as_str()),
            Tag::Other => String::from_str("Other"),
        }
    }
}

impl Event {
    /// The name of the event, with what it holds.
    pub fn describe(&self) -> (r: String)
        ensures
            r@ == event_text(*self),
    {
        match self {
            Event::Start(t) => wrapped("Start", t.describe().as_str()),
            Event::End(t) => wrapped("End", t.describe().as_str()),
            Event::Text(s) => wrapped("Text", s.as_str()),
            Event::Code(s) => wrapped("Code", s.as_str()),
            Event::SoftBreak => String::from_str("SoftBreak"),
            Event::HardBreak => String::from_str("HardBreak"),
            Event::Rule => String::from_str("Rule"),
            Event::TaskListMarker(true) => String::from_str("TaskListMarker(true)"),
            Event::TaskListMarker(false) => String::from_str("TaskListMarker(false)"),
            Event::Other => String::from_str("Other"),
        }
    }
}

} // verus!
