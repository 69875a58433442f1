//! The canonical writer: renders a nodo as markdown text with fixed,
//! whitespace-normalized formatting.
use vstd::prelude::*;
use crate::nodo::{Block, List, ListItem, Nodo, Text, TextItem, view_blocks, view_lines, view_list_items, view_strings, SpecBlock, SpecList, SpecListItem, SpecNodo, SpecTextItem, TextStyle};
use crate::text::{decimal, decimal_string, strip_break, strip_break_str, trim, trim_str};
use crate::dates::{format_date, formatted_date};

verus! {

pub open spec fn item_text(it: SpecTextItem) -> Seq<char> {
    match it {
        SpecTextItem::Plain(s) => s,
        SpecTextItem::Styled(s, TextStyle::Strikethrough) => "~~"@ + s + "~~"@,
        SpecTextItem::Styled(s, TextStyle::Strong) => "**"@ + s + "**"@,
        SpecTextItem::Styled(s, TextStyle::Emphasis) => "*"@ + s + "*"@,
        SpecTextItem::Styled(s, TextStyle::Code) => "`"@ + s + "`"@,
        SpecTextItem::Link(name, uri) => "["@ + name + "]("@ + uri + ")"@,
    }
}

/// A line of text as markup: its runs one after the other.
pub open spec fn line_text(t: Seq<SpecTextItem>) -> Seq<char>
    decreases t.len(),
{
    if t.len() == 0 {
        Seq::empty()
    } else {
        line_text(t.drop_last()) + item_text(t.last())
    }
}

pub open spec fn hashes(n: nat) -> Seq<char>
    decreases n,
{
    if n == 0 {
        Seq::empty()
    } else {
        hashes((n - 1) as nat) + "#"@
    }
}

/// The prefix of a block's first line: none unless asked for.
pub open spec fn lead(prefix: Seq<char>, prefix_first_line: bool) -> Seq<char> {
    if prefix_first_line {
        prefix
    } else {
        Seq::empty()
    }
}

pub open spec fn heading_text(
    prefix: Seq<char>,
    prefix_first_line: bool,
    t: Seq<SpecTextItem>,
    level: u32,
) -> Seq<char> {
    lead(prefix, prefix_first_line) + hashes(level as nat) + " "@ + line_text(t) + "\n"@
}

/// Whether every line renders empty.
pub open spec fn all_blank(lines: Seq<Seq<SpecTextItem>>) -> bool {
    forall|j: int| 0 <= j < lines.len() ==> (#[trigger] line_text(lines[j])).len() == 0
}

/// A paragraph: each line that renders non-empty on a line of its own, with
/// the prefix, except the first such line when the first line is not prefixed.
pub open spec fn paragraph_text(
    prefix: Seq<char>,
    prefix_first_line: bool,
    lines: Seq<Seq<SpecTextItem>>,
) -> Seq<char>
    decreases lines.len(),
{
    if lines.len() == 0 {
        Seq::empty()
    } else {
        let rest = paragraph_text(prefix, prefix_first_line, lines.drop_last());
        let t = line_text(lines.last());
        if t.len() == 0 {
            rest
        } else if !prefix_first_line && all_blank(lines.drop_last()) {
            rest + t + "\n"@
        } else {
            rest + prefix + t + "\n"@
        }
    }
}

/// The raw lines of a code block, each prefixed and without its own line break.
pub open spec fn code_lines_text(prefix: Seq<char>, lines: Seq<Seq<char>>) -> Seq<char>
    decreases lines.len(),
{
    if lines.len() == 0 {
        Seq::empty()
    } else {
        code_lines_text(prefix, lines.drop_last()) + prefix + strip_break(lines.last()) + "\n"@
    }
}

pub open spec fn code_text(
    prefix: Seq<char>,
    prefix_first_line: bool,
    lang: Seq<char>,
    lines: Seq<Seq<char>>,
) -> Seq<char> {
    lead(prefix, prefix_first_line) + "```"@ + lang + "\n"@ + code_lines_text(prefix, lines) + prefix
        + "```\n"@
}

/// The marker of the item at index `j` of a list: a bullet, or the number
/// counted from the list's first index; the first marker is prefixed only
/// when the list's first line is.
pub open spec fn bullet(prefix: Seq<char>, prefix_first_line: bool, start: Option<u32>, j: int) -> Seq<char> {
    (if j == 0 {
        lead(prefix, prefix_first_line)
    } else {
        prefix
    }) + match start {
        None => "- "@,
        Some(k) => decimal((k + j) as nat) + ". "@,
    }
}

pub open spec fn block_text(prefix: Seq<char>, prefix_first_line: bool, b: SpecBlock) -> Seq<char>
    decreases b,
{
    match b {
        SpecBlock::List(l) => list_text(prefix, prefix_first_line, l),
        SpecBlock::Heading(t, level) => heading_text(prefix, prefix_first_line, t, level),
        SpecBlock::Paragraph(lines) => paragraph_text(prefix, prefix_first_line, lines),
        SpecBlock::Rule => lead(prefix, prefix_first_line) + "---\n"@,
        SpecBlock::BlockQuote(bs) => {
            let p = prefix + "> "@;
            lead(prefix, prefix_first_line) + "> "@ + joined(p, bs, true, trim(p) + "\n"@)
        },
        SpecBlock::Code(lang, lines) => code_text(prefix, prefix_first_line, lang, lines),
    }
}

/// Blocks, each followed by `sep`; the first line of all but the first block
/// is prefixed when `prefix_rest` holds.
pub open spec fn blocks_with_sep(
    prefix: Seq<char>,
    bs: Seq<SpecBlock>,
    prefix_rest: bool,
    sep: Seq<char>,
) -> Seq<char>
    decreases bs,
{
    if bs.len() == 0 {
        Seq::empty()
    } else {
        blocks_with_sep(prefix, bs.drop_last(), prefix_rest, sep) + block_text(
            prefix,
            prefix_rest && bs.len() - 1 != 0,
            bs.last(),
        ) + sep
    }
}

/// Blocks separated by `sep`.
pub open spec fn joined(prefix: Seq<char>, bs: Seq<SpecBlock>, prefix_rest: bool, sep: Seq<char>) -> Seq<
    char,
>
    decreases bs,
{
    if bs.len() == 0 {
        Seq::empty()
    } else {
        blocks_with_sep(prefix, bs.drop_last(), prefix_rest, sep) + block_text(
            prefix,
            prefix_rest && bs.len() - 1 != 0,
            bs.last(),
        )
    }
}

pub open spec fn list_text(prefix: Seq<char>, prefix_first_line: bool, l: SpecList) -> Seq<char>
    decreases l,
{
    match l {
        SpecList::Plain(items) => items_text(prefix, prefix_first_line, None, items),
        SpecList::Numbered(items, k) => items_text(prefix, prefix_first_line, Some(k), items),
    }
}

pub open spec fn items_text(
    prefix: Seq<char>,
    prefix_first_line: bool,
    start: Option<u32>,
    items: Seq<SpecListItem>,
) -> Seq<char>
    decreases items,
{
    if items.len() == 0 {
        Seq::empty()
    } else {
        items_text(prefix, prefix_first_line, start, items.drop_last()) + bullet(
            prefix,
            prefix_first_line,
            start,
            items.len() - 1,
        ) + list_item_text(prefix, items.last())
    }
}

/// An item after its marker: a task's checkbox, its blocks indented one level,
/// then its nested list indented one level.
pub open spec fn list_item_text(prefix: Seq<char>, it: SpecListItem) -> Seq<char>
    decreases it,
{
    let child = prefix + "    "@;
    match it {
        SpecListItem::Text(blocks, nested) => joined(child, blocks, true, "\n"@) + match nested {
            Some(l) => list_text(child, true, l),
            None => Seq::empty(),
        },
        SpecListItem::Task(blocks, done, nested) => (if done {
            "[x] "@
        } else {
            "[ ] "@
        }) + joined(child, blocks, true, "\n"@) + match nested {
            Some(l) => list_text(child, true, l),
            None => Seq::empty(),
        },
    }
}

/// Tags separated by a comma and a space.
pub open spec fn tags_text(tags: Seq<Seq<char>>) -> Seq<char>
    decreases tags.len(),
{
    if tags.len() == 0 {
        Seq::empty()
    } else if tags.len() == 1 {
        tags[0]
    } else {
        tags_text(tags.drop_last()) + ", "@ + tags.last()
    }
}

/// The lines of the frontmatter: tags if there are any, then each date that
/// is set and can be written in the format.
pub open spec fn front_lines(n: SpecNodo, format: Seq<char>) -> Seq<Seq<char>> {
    let a: Seq<Seq<char>> = if n.tags.len() > 0 {
        seq!["tags: "@ + tags_text(n.tags)]
    } else {
        Seq::empty()
    };
    let b = match n.start_date {
        Some(d) => match formatted_date(d, format) {
            Some(t) => a.push("start_date: "@ + t),
            None => a,
        },
        None => a,
    };
    match n.due_date {
        Some(d) => match formatted_date(d, format) {
            Some(t) => b.push("due_date: "@ + t),
            None => b,
        },
        None => b,
    }
}

pub open spec fn lines_text(lines: Seq<Seq<char>>) -> Seq<char>
    decreases lines.len(),
{
    if lines.len() == 0 {
        Seq::empty()
    } else {
        lines_text(lines.drop_last()) + lines.last() + "\n"@
    }
}

/// The frontmatter between two rules, then a blank line; nothing when it
/// would be empty.
pub open spec fn front_text(n: SpecNodo, format: Seq<char>) -> Seq<char> {
    let lines = front_lines(n, format);
    if lines.len() == 0 {
        Seq::empty()
    } else {
        "---\n"@ + lines_text(lines) + "---\n"@ + "\n"@
    }
}

/// The canonical text of a nodo: frontmatter, the title as a level 1 heading,
/// a blank line, then the blocks separated by blank lines.
pub open spec fn nodo_text(n: SpecNodo, format: Seq<char>) -> Seq<char> {
    front_text(n, format) + heading_text(Seq::empty(), false, n.title, 1) + "\n"@ + joined(
        Seq::empty(),
        n.blocks,
        false,
        "\n"@,
    )
}

fn write_item_text(out: &mut String, it: &TextItem)
    ensures
        final(out)@ == old(out)@ + item_text(it.view()),
{
    match it {
        TextItem::PlainText(t) => {
            out.append(t.as_str());
        },
        TextItem::StyledText(t, style) => {
            let mark = match style {
                TextStyle::Strikethrough => "~~",
                TextStyle::Strong => "**",
                TextStyle::Emphasis => "*",
                TextStyle::Code => "`",
            };
            out.append(mark);
            out.append(t.as_str());
            out.append(mark);
        },
        TextItem::Link(name, uri) => {
            out.append("[");
            out.append(name.as_str());
            out.append("](");
            out.append(uri.as_str());
            out.append(")");
        },
    }
    assert(final(out)@ =~= old(out)@ + item_text(it.view()));
}

fn write_text(out: &mut String, t: &Text)
    ensures
        final(out)@ == old(out)@ + line_text(t.view()),
{
    let ghost base = out@;
    let ghost tv = t.view();
    let mut i: usize = 0;
    assert(tv.subrange(0, 0) =~= Seq::<SpecTextItem>::empty());
    assert(out@ =~= base + line_text(tv.subrange(0, 0)));
    while i < t.inner.len()
        invariant
            i <= t.inner.len(),
            tv == t.view(),
            tv.len() == t.inner@.len(),
            out@ == base + line_text(tv.subrange(0, i as int)),
        decreases t.inner.len() - i,
    {
        write_item_text(out, &t.inner[i]);
        assert(tv.subrange(0, i + 1).drop_last() =~= tv.subrange(0, i as int));
        assert(out@ =~= base + line_text(tv.subrange(0, i + 1)));
        i = i + 1;
    }
    assert(tv.subrange(0, i as int) =~= tv);
}

/// The markup of a line of text.
pub fn format_text(t: &Text) -> (r: String)
    ensures
        r@ == line_text(t.view()),
{
    let mut s = String::new();
    write_text(&mut s, t);
    assert(s@ =~= line_text(t.view()));
    s
}

fn write_lead(out: &mut String, prefix: &str, prefix_first_line: bool)
    ensures
        final(out)@ == old(out)@ + lead(prefix@, prefix_first_line),
{
    if prefix_first_line {
        out.append(prefix);
    } else {
        assert(old(out)@ =~= old(out)@ + lead(prefix@, prefix_first_line));
    }
}

fn write_heading(out: &mut String, prefix: &str, prefix_first_line: bool, t: &Text, level: u32)
    ensures
        final(out)@ == old(out)@ + heading_text(prefix@, prefix_first_line, t.view(), level),
{
    let ghost base = out@;
    write_lead(out, prefix, prefix_first_line);
    let ghost with_lead = out@;
    let mut i: u32 = 0;
    assert(out@ =~= with_lead + hashes(0));
    while i < level
        invariant
            i <= level,
            out@ == with_lead + hashes(i as nat),
        decreases level - i,
    {
        out.append("#");
        assert(out@ =~= with_lead + hashes((i + 1) as nat));
        i = i + 1;
    }
    out.append(" ");
    write_text(out, t);
    out.append("\n");
    assert(out@ =~= base + heading_text(prefix@, prefix_first_line, t.view(), level));
}

fn write_paragraph(out: &mut String, prefix: &str, prefix_first_line: bool, lines: &Vec<Text>)
    ensures
        final(out)@ == old(out)@ + paragraph_text(prefix@, prefix_first_line, view_lines(lines@)),
{
    let ghost base = out@;
    let ghost lv = view_lines(lines@);
    let mut seen = false;
    let mut i: usize = 0;
    assert(lv.subrange(0, 0) =~= Seq::<Seq<SpecTextItem>>::empty());
    assert(out@ =~= base + paragraph_text(prefix@, prefix_first_line, lv.subrange(0, 0)));
    while i < lines.len()
        invariant
            i <= lines.len(),
            lv == view_lines(lines@),
            out@ == base + paragraph_text(prefix@, prefix_first_line, lv.subrange(0, i as int)),
            seen == !all_blank(lv.subrange(0, i as int)),
        decreases lines.len() - i,
    {
        let t = format_text(&lines[i]);
        let ghost sub = lv.subrange(0, i + 1);
        assert(sub.drop_last() =~= lv.subrange(0, i as int));
        assert(sub.last() == lines@[i as int].view());
        if t.as_str().unicode_len() == 0 {
            assert(all_blank(sub) == all_blank(lv.subrange(0, i as int))) by {
                if all_blank(lv.subrange(0, i as int)) {
                    assert forall|j: int| 0 <= j < sub.len() implies (#[trigger] line_text(sub[j])).len() == 0 by {
                        if j < i {
                            assert(sub[j] == lv.subrange(0, i as int)[j]);
                        }
                    }
                }
                if all_blank(sub) {
                    assert forall|j: int| 0 <= j < i implies (#[trigger] line_text(lv.subrange(0, i as int)[j])).len() == 0 by {
                        assert(sub[j] == lv.subrange(0, i as int)[j]);
                    }
                }
            }
        } else {
            assert(!all_blank(sub)) by {
                assert(line_text(sub[i as int]).len() != 0);
            }
            if !seen && !prefix_first_line {
                out.append(t.as_str());
                out.append("\n");
            } else {
                out.append(prefix);
                out.append(t.as_str());
                out.append("\n");
            }
            seen = true;
        }
        assert(out@ =~= base + paragraph_text(prefix@, prefix_first_line, sub));
        i = i + 1;
    }
    assert(lv.subrange(0, i as int) =~= lv);
}

fn write_code(
    out: &mut String,
    prefix: &str,
    prefix_first_line: bool,
    lang: &String,
    lines: &Vec<String>,
)
    ensures
        final(out)@ == old(out)@ + code_text(prefix@, prefix_first_line, lang@, view_strings(lines@)),
{
    let ghost base = out@;
    let ghost lv = view_strings(lines@);
    write_lead(out, prefix, prefix_first_line);
    out.append("```");
    out.append(lang.as_str());
    out.append("\n");
    let ghost head = out@;
    let mut i: usize = 0;
    assert(lv.subrange(0, 0) =~= Seq::<Seq<char>>::empty());
    assert(out@ =~= head + code_lines_text(prefix@, lv.subrange(0, 0)));
    while i < lines.len()
        invariant
            i <= lines.len(),
            lv == view_strings(lines@),
            out@ == head + code_lines_text(prefix@, lv.subrange(0, i as int)),
        decreases lines.len() - i,
    {
        out.append(prefix);
        out.append(strip_break_str(lines[i].as_str()));
        out.append("\n");
        assert(lv.subrange(0, i + 1).drop_last() =~= lv.subrange(0, i as int));
        assert(out@ =~= head + code_lines_text(prefix@, lv.subrange(0, i + 1)));
        i = i + 1;
    }
    assert(lv.subrange(0, i as int) =~= lv);
    out.append(prefix);
    out.append("```\n");
    assert(out@ =~= base + code_text(prefix@, prefix_first_line, lang@, lv));
}

fn write_block(out: &mut String, prefix: &str, prefix_first_line: bool, b: &Block)
    ensures
        final(out)@ == old(out)@ + block_text(prefix@, prefix_first_line, b.view()),
    decreases b,
{
    match b {
        Block::List(l) => write_list(out, prefix, prefix_first_line, l),
        Block::Heading(t, level) => write_heading(out, prefix, prefix_first_line, t, *level),
        Block::Paragraph(lines) => write_paragraph(out, prefix, prefix_first_line, lines),
        Block::Rule => {
            let ghost base = out@;
            write_lead(out, prefix, prefix_first_line);
            out.append("---\n");
            assert(out@ =~= base + block_text(prefix@, prefix_first_line, b.view()));
        },
        Block::BlockQuote(bs) => {
            let ghost base = out@;
            let mut p = String::from_str(prefix);
            p.append("> ");
            let ghost pv = p@;
            let mut sep = String::from_str(trim_str(p.as_str()));
            sep.append("\n");
            write_lead(out, prefix, prefix_first_line);
            out.append("> ");
            write_blocks(out, p.as_str(), bs, true, sep.as_str());
            assert(out@ =~= base + block_text(prefix@, prefix_first_line, b.view()));
        },
        Block::Code(lang, lines) => write_code(out, prefix, prefix_first_line, lang, lines),
    }
}

/// Writes blocks separated by `sep`; the first line of all but the first block
/// is prefixed when `prefix_rest` holds.
fn write_blocks(out: &mut String, prefix: &str, bs: &Vec<Block>, prefix_rest: bool, sep: &str)
    ensures
        final(out)@ == old(out)@ + joined(prefix@, view_blocks(bs@), prefix_rest, sep@),
    decreases bs,
{
    let ghost base = out@;
    let ghost bv = view_blocks(bs@);
    let n = bs.len();
    if n == 0 {
        assert(out@ =~= base + joined(prefix@, bv, prefix_rest, sep@));
        return;
    }
    let mut i: usize = 0;
    assert(bv.subrange(0, 0) =~= Seq::<SpecBlock>::empty());
    assert(out@ =~= base + blocks_with_sep(prefix@, bv.subrange(0, 0), prefix_rest, sep@));
    while i + 1 < n
        invariant
            i + 1 <= n,
            n == bs.len(),
            bv == view_blocks(bs@),
            out@ == base + blocks_with_sep(prefix@, bv.subrange(0, i as int), prefix_rest, sep@),
        decreases n - i,
    {
        proof {
            assert(decreases_to!(bs => bs@[i as int]));
        }
        write_block(out, prefix, prefix_rest && i != 0, &bs[i]);
        out.append(sep);
        let ghost sub = bv.subrange(0, i + 1);
        assert(sub.drop_last() =~= bv.subrange(0, i as int));
        assert(sub.last() == bs@[i as int].view());
        assert(out@ =~= base + blocks_with_sep(prefix@, sub, prefix_rest, sep@));
        i = i + 1;
    }
    proof {
        assert(decreases_to!(bs => bs@[i as int]));
    }
    write_block(out, prefix, prefix_rest && i != 0, &bs[i]);
    assert(bv.drop_last() =~= bv.subrange(0, i as int));
    assert(out@ =~= base + joined(prefix@, bv, prefix_rest, sep@));
}

fn write_list(out: &mut String, prefix: &str, prefix_first_line: bool, l: &List)
    ensures
        final(out)@ == old(out)@ + list_text(prefix@, prefix_first_line, l.view()),
    decreases l,
{
    let ghost base = out@;
    let (items, start) = match l {
        List::Plain(items) => (items, None),
        List::Numbered(items, k) => (items, Some(*k)),
    };
    let ghost iv = view_list_items(items@);
    assert(list_text(prefix@, prefix_first_line, l.view()) == items_text(prefix@, prefix_first_line, start, iv));
    proof {
        assert(decreases_to!(l => items));
    }
    let mut i: usize = 0;
    assert(iv.subrange(0, 0) =~= Seq::<SpecListItem>::empty());
    assert(out@ =~= base + items_text(prefix@, prefix_first_line, start, iv.subrange(0, 0)));
    while i < items.len()
        invariant
            i <= items.len(),
            decreases_to!(l => items),
            iv == view_list_items(items@),
            out@ == base + items_text(prefix@, prefix_first_line, start, iv.subrange(0, i as int)),
        decreases items.len() - i,
    {
        proof {
            assert(decreases_to!(items => items@[i as int]));
            assert(decreases_to!(l => items@[i as int]));
        }
        let ghost before = out@;
        if i == 0 {
            write_lead(out, prefix, prefix_first_line);
        } else {
            out.append(prefix);
        }
        match start {
            Some(k) => {
                let num = decimal_string(k as u128 + i as u128);
                out.append(num.as_str());
                out.append(". ");
            },
            None => {
                out.append("- ");
            },
        }
        assert(out@ =~= before + bullet(prefix@, prefix_first_line, start, i as int));
        write_item(out, prefix, &items[i]);
        let ghost sub = iv.subrange(0, i + 1);
        assert(sub.drop_last() =~= iv.subrange(0, i as int));
        assert(sub.last() == items@[i as int].view());
        assert(out@ =~= base + items_text(prefix@, prefix_first_line, start, sub));
        i = i + 1;
    }
    assert(iv.subrange(0, i as int) =~= iv);
}

fn write_item(out: &mut String, prefix: &str, it: &ListItem)
    ensures
        final(out)@ == old(out)@ + list_item_text(prefix@, it.view()),
    decreases it,
{
    let ghost base = out@;
    let mut child = String::from_str(prefix);
    child.append("    ");
    match it {
        ListItem::Text(blocks, nested) => {
            write_blocks(out, child.as_str(), blocks, true, "\n");
            match nested {
                Some(l) => write_list(out, child.as_str(), true, l),
                None => {},
            }
        },
        ListItem::Task(blocks, done, nested) => {
            if *done {
                out.append("[x] ");
            } else {
                out.append("[ ] ");
            }
            write_blocks(out, child.as_str(), blocks, true, "\n");
            match nested {
                Some(l) => write_list(out, child.as_str(), true, l),
                None => {},
            }
        },
    }
    assert(out@ =~= base + list_item_text(prefix@, it.view()));
}

fn write_tags(out: &mut String, tags: &[String])
    ensures
        final(out)@ == old(out)@ + tags_text(view_strings(tags@)),
{
    let ghost base = out@;
    let ghost tv = view_strings(tags@);
    let mut i: usize = 0;
    assert(tv.subrange(0, 0) =~= Seq::<Seq<char>>::empty());
    assert(out@ =~= base + tags_text(tv.subrange(0, 0)));
    while i < tags.len()
        invariant
            i <= tags.len(),
            tv == view_strings(tags@),
            out@ == base + tags_text(tv.subrange(0, i as int)),
        decreases tags.len() - i,
    {
        if i > 0 {
            out.append(", ");
        }
        out.append(tags[i].as_str());
        let ghost sub = tv.subrange(0, i + 1);
        assert(sub.drop_last() =~= tv.subrange(0, i as int));
        if i == 0 {
            assert(sub =~= seq![tags@[0]@]);
        }
        assert(out@ =~= base + tags_text(sub));
        i = i + 1;
    }
    assert(tv.subrange(0, i as int) =~= tv);
}

fn write_frontmatter(out: &mut String, nodo: &Nodo, date_format: &str)
    ensures
        final(out)@ == old(out)@ + front_text(nodo.view(), date_format@),
{
    let ghost base = out@;
    let ghost nv = nodo.view();
    let mut lines: Vec<String> = Vec::new();
    let tags = nodo.tags();
    if tags.len() > 0 {
        let mut line = String::from_str("tags: ");
        write_tags(&mut line, tags);
        lines.push(line);
    }
    match nodo.start_date() {
        Some(d) => match format_date(d, date_format) {
            Some(t) => {
                let mut line = String::from_str("start_date: ");
                line.append(t.as_str());
                lines.push(line);
            },
            None => {},
        },
        None => {},
    }
    match nodo.due_date() {
        Some(d) => match format_date(d, date_format) {
            Some(t) => {
                let mut line = String::from_str("due_date: ");
                line.append(t.as_str());
                lines.push(line);
            },
            None => {},
        },
        None => {},
    }
    let ghost lv = view_strings(lines@);
    assert(lv =~= front_lines(nv, date_format@));
    if lines.len() == 0 {
        assert(out@ =~= base + front_text(nv, date_format@));
        return;
    }
    out.append("---\n");
    let ghost head = out@;
    let mut i: usize = 0;
    assert(lv.subrange(0, 0) =~= Seq::<Seq<char>>::empty());
    assert(out@ =~= head + lines_text(lv.subrange(0, 0)));
    while i < lines.len()
        invariant
            i <= lines.len(),
            lv == view_strings(lines@),
            out@ == head + lines_text(lv.subrange(0, i as int)),
        decreases lines.len() - i,
    {
        out.append(lines[i].as_str());
        out.append("\n");
        assert(lv.subrange(0, i + 1).drop_last() =~= lv.subrange(0, i as int));
        assert(out@ =~= head + lines_text(lv.subrange(0, i + 1)));
        i = i + 1;
    }
    assert(lv.subrange(0, i as int) =~= lv);
    out.append("---\n");
    out.append("\n");
    assert(out@ =~= base + front_text(nv, date_format@));
}

/// Appends the canonical text of a nodo.
pub fn write_nodo(out: &mut String, nodo: &Nodo, date_format: &str)
    ensures
        final(out)@ == old(out)@ + nodo_text(nodo.view(), date_format@),
{
    let ghost base = out@;
    proof {
        reveal_strlit("");
        assert(""@ =~= Seq::<char>::empty());
    }
    write_frontmatter(out, nodo, date_format);
    write_heading(out, "", false, nodo.title(), 1);
    out.append("\n");
    let blocks = nodo.blocks();
    let ghost bv = view_blocks(blocks@);
    let ghost before = out@;
    let n = blocks.len();
    if n > 0 {
        let mut i: usize = 0;
        assert(bv.subrange(0, 0) =~= Seq::<SpecBlock>::empty());
        assert(out@ =~= before + blocks_with_sep(Seq::empty(), bv.subrange(0, 0), false, "\n"@));
        while i + 1 < n
            invariant
                i + 1 <= n,
                n == blocks@.len(),
                ""@ == Seq::<char>::empty(),
                bv == view_blocks(blocks@),
                out@ == before + blocks_with_sep(Seq::empty(), bv.subrange(0, i as int), false, "\n"@),
            decreases n - i,
        {
            write_block(out, "", false, &blocks[i]);
            out.append("\n");
            let ghost sub = bv.subrange(0, i + 1);
            assert(sub.drop_last() =~= bv.subrange(0, i as int));
            assert(sub.last() == blocks@[i as int].view());
            assert(out@ =~= before + blocks_with_sep(Seq::empty(), sub, false, "\n"@));
            i = i + 1;
        }
        write_block(out, "", false, &blocks[i]);
        assert(bv.drop_last() =~= bv.subrange(0, i as int));
    }
    assert(out@ =~= base + nodo_text(nodo.view(), date_format@));
}

} // verus!
